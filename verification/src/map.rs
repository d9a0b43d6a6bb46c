//! The dungeon grid and the rooms it is made of.

use crate::dice::{roll_bool, roll_range};
use crate::game_object::{blocked_at, is_blocked, views, GameObject, ObjectView, PLAYER};
use crate::colors::white;
use crate::reach::{
    all_reachable, floor_open, lemma_first_room, lemma_room_linked, lower, on_column, on_row,
    upper,
};
use crate::spawn::{
    item_chances, item_for, item_object, item_view, item_weight, monster, monster_chances,
    monster_for, monster_view, monster_weight, MonsterKind,
};
use crate::game_object::Item;
use rand::rngs::StdRng;
use vstd::prelude::*;

verus! {

/// Width of the dungeon, in tiles.
pub const MAP_WIDTH: i32 = 80;

/// Height of the dungeon, in tiles.
pub const MAP_HEIGHT: i32 = 43;

/// Largest side of a room.
pub const ROOM_MAX_SIZE: i32 = 10;

/// Smallest side of a room.
pub const ROOM_MIN_SIZE: i32 = 6;

/// How many rooms the generator tries to place.
pub const MAX_ROOMS: i32 = 30;

/// Most monsters a room starts with.
pub const MAX_ROOM_MONSTERS: i32 = 3;

/// Most items a room starts with.
pub const MAX_ROOM_ITEMS: i32 = 2;

/// Whether lit walls count as seen.
pub const FOV_LIGHT_WALLS: bool = true;

/// How far the player's torch reaches.
pub const TORCH_RADIUS: i32 = 10;

/// One tile of the dungeon.
#[derive(Clone, Copy, Debug, PartialEq, Eq, Structural)]
pub struct Tile {
    pub blocked: bool,
    pub block_sight: bool,
    pub explored: bool,
}

impl Tile {
    /// Open floor.
    pub fn empty() -> (tile: Self)
        ensures
            tile == (Tile { blocked: false, block_sight: false, explored: false }),
    {
        Tile { blocked: false, block_sight: false, explored: false }
    }

    /// Solid rock.
    pub fn wall() -> (tile: Self)
        ensures
            tile == (Tile { blocked: true, block_sight: true, explored: false }),
    {
        Tile { blocked: true, block_sight: true, explored: false }
    }
}

/// The dungeon: columns of tiles, indexed `[x][y]`.
pub type Grid = Vec<Vec<Tile>>;

/// The tiles of a grid as a sequence of columns.
pub open spec fn tiles(map: Grid) -> Seq<Seq<Tile>> {
    Seq::new(map@.len(), |x: int| map@[x]@)
}

/// A grid of the dungeon's fixed dimensions.
pub open spec fn full_size(tiles: Seq<Seq<Tile>>) -> bool {
    &&& tiles.len() == MAP_WIDTH
    &&& forall|x: int| 0 <= x < tiles.len() ==> (#[trigger] tiles[x]).len() == MAP_HEIGHT
}

/// Whether `(x, y)` lies on the grid.
pub open spec fn on_grid(tiles: Seq<Seq<Tile>>, x: int, y: int) -> bool {
    0 <= x < tiles.len() && 0 <= y < tiles[x].len()
}

/// Whether `(x, y)` is a tile one can stand on: on the grid and not blocked.
pub open spec fn open_tile(tiles: Seq<Seq<Tile>>, x: int, y: int) -> bool {
    on_grid(tiles, x, y) && !tiles[x][y].blocked
}

/// A rectangle on the map used to characterise a room. Its corners are
/// `(x1, y1)` and `(x2, y2)`; the room's floor is what lies strictly between.
#[derive(Clone, Copy, Debug, PartialEq, Eq, Structural)]
pub struct Rect {
    pub x1: i32,
    pub y1: i32,
    pub x2: i32,
    pub y2: i32,
}

impl Rect {
    /// The rectangle with corner `(x, y)`, `w` wide and `h` high.
    pub fn new(x: i32, y: i32, w: i32, h: i32) -> (rect: Self)
        requires
            i32::MIN <= x + w <= i32::MAX,
            i32::MIN <= y + h <= i32::MAX,
        ensures
            rect == (Rect { x1: x, y1: y, x2: (x + w) as i32, y2: (y + h) as i32 }),
    {
        Rect { x1: x, y1: y, x2: x + w, y2: y + h }
    }

    /// The centre, rounded toward zero.
    pub open spec fn center_spec(self) -> (int, int) {
        (half(self.x1 + self.x2), half(self.y1 + self.y2))
    }

    /// The centre, rounded toward zero.
    pub fn center(&self) -> (c: (i32, i32))
        ensures
            (c.0 as int, c.1 as int) == self.center_spec(),
    {
        let center_x = ((self.x1 as i64 + self.x2 as i64) / 2) as i32;
        let center_y = ((self.y1 as i64 + self.y2 as i64) / 2) as i32;
        (center_x, center_y)
    }

    /// Whether the two rectangles share a point, borders included.
    pub open spec fn intersects(self, other: Rect) -> bool {
        self.x1 <= other.x2 && self.x2 >= other.x1 && self.y1 <= other.y2 && self.y2 >= other.y1
    }

    /// Whether the two rectangles share a point, borders included.
    pub fn intersects_with(&self, other: &Rect) -> (b: bool)
        ensures
            b == self.intersects(*other),
    {
        (self.x1 <= other.x2) && (self.x2 >= other.x1) && (self.y1 <= other.y2) && (self.y2
            >= other.y1)
    }

    /// Whether `(x, y)` is part of the room's floor.
    pub open spec fn floor(self, x: int, y: int) -> bool {
        self.x1 < x < self.x2 && self.y1 < y < self.y2
    }
}

/// Whether two grids have the same dimensions.
pub open spec fn same_shape(a: Seq<Seq<Tile>>, b: Seq<Seq<Tile>>) -> bool {
    &&& a.len() == b.len()
    &&& forall|x: int|
        #![trigger a[x]]
        #![trigger b[x]]
        0 <= x < a.len() ==> a[x].len() == b[x].len()
}

/// Whether `after` is `before` with the tiles of `region` turned into open
/// floor and every other tile as it was.
pub open spec fn dug(
    before: Seq<Seq<Tile>>,
    after: Seq<Seq<Tile>>,
    region: spec_fn(int, int) -> bool,
) -> bool {
    &&& same_shape(before, after)
    &&& forall|x: int, y: int|
        on_grid(before, x, y) ==> #[trigger] after[x][y] == if region(x, y) {
            Tile { blocked: false, block_sight: false, explored: false }
        } else {
            before[x][y]
        }
}

/// Replaces the tile at `(x, y)`.
pub(crate) fn set_tile(map: &mut Grid, x: usize, y: usize, tile: Tile)
    requires
        on_grid(tiles(*old(map)), x as int, y as int),
    ensures
        tiles(*final(map)) == tiles(*old(map)).update(
            x as int,
            tiles(*old(map))[x as int].update(y as int, tile),
        ),
{
    map[x][y] = tile;
    assert(tiles(*map) =~= tiles(*old(map)).update(
        x as int,
        tiles(*old(map))[x as int].update(y as int, tile),
    ));
}

/// Carves the floor of `room` out of the rock.
pub fn create_room(room: Rect, map: &mut Grid)
    requires
        forall|x: int, y: int| room.floor(x, y) ==> on_grid(tiles(*old(map)), x, y),
    ensures
        dug(tiles(*old(map)), tiles(*final(map)), |x: int, y: int| room.floor(x, y)),
{
    let mut x: i64 = room.x1 as i64 + 1;
    while x < room.x2 as i64
        invariant
            room.x1 < x,
            forall|x: int, y: int| room.floor(x, y) ==> on_grid(tiles(*old(map)), x, y),
            dug(
                tiles(*old(map)),
                tiles(*map),
                |a: int, b: int| room.floor(a, b) && a < x,
            ),
        decreases room.x2 - x,
    {
        let mut y: i64 = room.y1 as i64 + 1;
        while y < room.y2 as i64
            invariant
                room.x1 < x < room.x2,
                room.y1 < y,
                forall|x: int, y: int| room.floor(x, y) ==> on_grid(tiles(*old(map)), x, y),
                dug(
                    tiles(*old(map)),
                    tiles(*map),
                    |a: int, b: int| room.floor(a, b) && (a < x || (a == x && b < y)),
                ),
            decreases room.y2 - y,
        {
            assert(room.floor(x as int, y as int));
            set_tile(map, x as usize, y as usize, Tile::empty());
            y += 1;
        }
        x += 1;
    }
}

/// Carves a corridor along the row `y` between the columns `x1` and `x2`.
pub fn create_h_tunnel(x1: i32, x2: i32, y: i32, map: &mut Grid)
    requires
        forall|a: int, b: int| on_row(x1 as int, x2 as int, y as int, a, b) ==> on_grid(
            tiles(*old(map)),
            a,
            b,
        ),
    ensures
        dug(
            tiles(*old(map)),
            tiles(*final(map)),
            |a: int, b: int| on_row(x1 as int, x2 as int, y as int, a, b),
        ),
{
    let lo = if x1 <= x2 { x1 } else { x2 };
    let hi = if x1 <= x2 { x2 } else { x1 };
    let mut x: i64 = lo as i64;
    while x <= hi as i64
        invariant
            lo == lower(x1 as int, x2 as int),
            hi == upper(x1 as int, x2 as int),
            lo <= x,
            forall|a: int, b: int| on_row(x1 as int, x2 as int, y as int, a, b) ==> on_grid(
                tiles(*old(map)),
                a,
                b,
            ),
            dug(
                tiles(*old(map)),
                tiles(*map),
                |a: int, b: int| on_row(x1 as int, x2 as int, y as int, a, b) && a < x,
            ),
        decreases hi - x + 1,
    {
        assert(on_row(x1 as int, x2 as int, y as int, x as int, y as int));
        set_tile(map, x as usize, y as usize, Tile::empty());
        x += 1;
    }
}

/// Carves a corridor along the column `x` between the rows `y1` and `y2`.
pub fn create_v_tunnel(y1: i32, y2: i32, x: i32, map: &mut Grid)
    requires
        forall|a: int, b: int| on_column(y1 as int, y2 as int, x as int, a, b) ==> on_grid(
            tiles(*old(map)),
            a,
            b,
        ),
    ensures
        dug(
            tiles(*old(map)),
            tiles(*final(map)),
            |a: int, b: int| on_column(y1 as int, y2 as int, x as int, a, b),
        ),
{
    let lo = if y1 <= y2 { y1 } else { y2 };
    let hi = if y1 <= y2 { y2 } else { y1 };
    let mut y: i64 = lo as i64;
    while y <= hi as i64
        invariant
            lo == lower(y1 as int, y2 as int),
            hi == upper(y1 as int, y2 as int),
            lo <= y,
            forall|a: int, b: int| on_column(y1 as int, y2 as int, x as int, a, b) ==> on_grid(
                tiles(*old(map)),
                a,
                b,
            ),
            dug(
                tiles(*old(map)),
                tiles(*map),
                |a: int, b: int| on_column(y1 as int, y2 as int, x as int, a, b) && b < y,
            ),
        decreases hi - y + 1,
    {
        assert(on_column(y1 as int, y2 as int, x as int, x as int, y as int));
        set_tile(map, x as usize, y as usize, Tile::empty());
        y += 1;
    }
}

/// Whether `(x, y)` lies on the bent corridor from `from` to `to`: along a row
/// and then a column when `row_first`, along a column and then a row
/// otherwise.
pub open spec fn on_link(from: (int, int), to: (int, int), row_first: bool, x: int, y: int) -> bool {
    if row_first {
        on_row(from.0, to.0, from.1, x, y) || on_column(from.1, to.1, to.0, x, y)
    } else {
        on_column(from.1, to.1, from.0, x, y) || on_row(from.0, to.0, to.1, x, y)
    }
}

/// Carves a bent corridor from `from` to `to`.
pub fn connect(from: (i32, i32), to: (i32, i32), row_first: bool, map: &mut Grid)
    requires
        on_grid(tiles(*old(map)), from.0 as int, from.1 as int),
        on_grid(tiles(*old(map)), to.0 as int, to.1 as int),
        full_size(tiles(*old(map))),
    ensures
        dug(
            tiles(*old(map)),
            tiles(*final(map)),
            |x: int, y: int|
                on_link((from.0 as int, from.1 as int), (to.0 as int, to.1 as int), row_first, x, y),
        ),
{
    if row_first {
        create_h_tunnel(from.0, to.0, from.1, map);
        assert(full_size(tiles(*map)));
        create_v_tunnel(from.1, to.1, to.0, map);
    } else {
        create_v_tunnel(from.1, to.1, from.0, map);
        assert(full_size(tiles(*map)));
        create_h_tunnel(from.0, to.0, to.1, map);
    }
}

/// What the generator may draw for a room: sides within the limits, and the
/// whole rectangle on the grid with a tile to spare to the right and below.
pub open spec fn room_fits(room: Rect) -> bool {
    &&& 0 <= room.x1
    &&& 0 <= room.y1
    &&& ROOM_MIN_SIZE <= room.x2 - room.x1 <= ROOM_MAX_SIZE
    &&& ROOM_MIN_SIZE <= room.y2 - room.y1 <= ROOM_MAX_SIZE
    &&& room.x2 < MAP_WIDTH
    &&& room.y2 < MAP_HEIGHT
}

/// No two of `rooms` share a point, borders included.
pub open spec fn rooms_apart(rooms: Seq<Rect>) -> bool {
    forall|i: int, j: int| 0 <= i < j < rooms.len() ==> !(#[trigger] rooms[i]).intersects(#[trigger] rooms[j])
}

/// Whether `(x, y)` is part of what room number `i` adds to a level: the
/// room's floor, or the bent corridor from the centre of the room before it
/// to its own, which runs along the row first where `bends[i]` says so and
/// along the column first otherwise.
pub open spec fn on_plan(rooms: Seq<Rect>, bends: Seq<bool>, i: int, x: int, y: int) -> bool {
    ||| rooms[i].floor(x, y)
    ||| i > 0 && on_link(rooms[i - 1].center_spec(), rooms[i].center_spec(), bends[i], x, y)
}

/// Whether `(x, y)` is part of a room's floor or of the corridor between a
/// room and the next.
pub open spec fn planned(rooms: Seq<Rect>, bends: Seq<bool>, x: int, y: int) -> bool {
    exists|i: int| 0 <= i < rooms.len() && #[trigger] on_plan(rooms, bends, i, x, y)
}

/// The open tiles are the rooms' floors and the corridors between each room
/// and the next, and nothing else.
pub open spec fn as_planned(tiles: Seq<Seq<Tile>>, rooms: Seq<Rect>, bends: Seq<bool>) -> bool {
    forall|x: int, y: int|
        #![trigger open_tile(tiles, x, y)]
        #![trigger planned(rooms, bends, x, y)]
        open_tile(tiles, x, y) <==> planned(rooms, bends, x, y)
}

/// Every open tile has rock between it and the edge of the grid.
pub open spec fn walled_in(tiles: Seq<Seq<Tile>>) -> bool {
    forall|x: int, y: int| #[trigger]
        open_tile(tiles, x, y) ==> 0 < x < MAP_WIDTH - 1 && 0 < y < MAP_HEIGHT - 1
}

/// Whether `room` shares a point with one of `rooms`.
pub fn intersects_any(room: &Rect, rooms: &Vec<Rect>) -> (b: bool)
    ensures
        b == exists|i: int| 0 <= i < rooms@.len() && room.intersects(#[trigger] rooms@[i]),
{
    let mut i: usize = 0;
    while i < rooms.len()
        invariant
            i <= rooms@.len(),
            forall|j: int| 0 <= j < i ==> !room.intersects(#[trigger] rooms@[j]),
        decreases rooms@.len() - i,
    {
        if room.intersects_with(&rooms[i]) {
            return true;
        }
        i += 1;
    }
    false
}

/// Whether `object` is a fresh monster of a kind that has weight at `level`.
pub open spec fn monster_of(object: ObjectView, level: u32) -> bool {
    exists|kind: MonsterKind| #[trigger]
        monster_weight(kind, level) > 0 && object == monster_view(
            kind,
            object.x,
            object.y,
            level,
        )
}

/// Whether `object` is a fresh item of a kind that has weight at `level`.
pub open spec fn item_of(object: ObjectView, level: u32) -> bool {
    exists|item: Item| #[trigger]
        item_weight(item, level) > 0 && object == item_view(item, object.x, object.y)
}

/// Whether `object` is something the generator puts into `room` at `level`:
/// a fresh monster or item of a kind that has weight there, on the room's
/// floor.
pub open spec fn spawned(object: ObjectView, room: Rect, level: u32) -> bool {
    &&& room.floor(object.x as int, object.y as int)
    &&& (monster_of(object, level) || item_of(object, level))
}

/// Whether what follows the first `from` of `objects` is what populating a
/// room adds: monsters up to number `middle`, `MAX_ROOM_MONSTERS` at most,
/// and items from there on, `MAX_ROOM_ITEMS` at most.
pub open spec fn monsters_then_items(
    objects: Seq<ObjectView>,
    from: int,
    middle: int,
    level: u32,
) -> bool {
    &&& from <= middle <= from + MAX_ROOM_MONSTERS
    &&& middle <= objects.len() <= middle + MAX_ROOM_ITEMS
    &&& forall|i: int| from <= i < middle ==> monster_of(#[trigger] objects[i], level)
    &&& forall|i: int| middle <= i < objects.len() ==> item_of(#[trigger] objects[i], level)
}

/// Puts a monster of the kind that `roll` stands for at `(x, y)`, unless
/// something is in the way there.
pub fn place_monster(x: i32, y: i32, roll: u32, level: u32, map: &Grid, objects: &mut Vec<GameObject>)
    requires
        roll < crate::spawn::monster_total(level),
    ensures
        final(objects)@ == if blocked_at(tiles(*map), views(old(objects)@), x as int, y as int) {
            old(objects)@
        } else {
            old(objects)@.push(final(objects)@.last())
        },
        !blocked_at(tiles(*map), views(old(objects)@), x as int, y as int)
            ==> final(objects)@.last()@ == monster_view(
            crate::spawn::monster_drawn(roll as int, level),
            x,
            y,
            level,
        ),
{
    if !is_blocked(x, y, map, objects.as_slice()) {
        objects.push(monster(monster_for(roll, level), x, y, level));
    }
}

/// Puts the item that `roll` stands for at `(x, y)`, unless something is in
/// the way there.
pub fn place_item(x: i32, y: i32, roll: u32, level: u32, map: &Grid, objects: &mut Vec<GameObject>)
    requires
        roll < crate::spawn::item_total(level),
    ensures
        final(objects)@ == if blocked_at(tiles(*map), views(old(objects)@), x as int, y as int) {
            old(objects)@
        } else {
            old(objects)@.push(final(objects)@.last())
        },
        !blocked_at(tiles(*map), views(old(objects)@), x as int, y as int)
            ==> final(objects)@.last()@ == item_view(
            crate::spawn::item_drawn(roll as int, level),
            x,
            y,
        ),
{
    if !is_blocked(x, y, map, objects.as_slice()) {
        objects.push(item_object(item_for(roll, level), x, y));
    }
}

/// No two entities that block stand on one tile.
pub open spec fn uncrowded(objects: Seq<ObjectView>) -> bool {
    forall|i: int, j: int|
        0 <= i < j < objects.len() && (#[trigger] objects[i]).blocks && (#[trigger] objects[j]).blocks
            ==> !(objects[i].x == objects[j].x && objects[i].y == objects[j].y)
}

/// How often a tile is drawn for one monster or item before it is left out:
/// as often as the largest room has tiles.
pub const PLACE_DRAWS: i32 = 81;

/// Puts one monster on the floor of `room`: a tile is drawn, and drawn again
/// while something is in the way there, `PLACE_DRAWS` times at most; on the
/// first free tile goes a monster of a kind drawn by weight.
fn settle_monster(
    room: Rect,
    map: &Grid,
    objects: &mut Vec<GameObject>,
    level: u32,
    total: u32,
    rng: &mut StdRng,
)
    requires
        room.x1 + 1 < room.x2,
        room.y1 + 1 < room.y2,
        total == crate::spawn::monster_total(level),
        0 < total <= 200,
    ensures
        final(objects)@ == old(objects)@ || final(objects)@ == old(objects)@.push(
            final(objects)@.last(),
        ),
        final(objects)@.len() > old(objects)@.len() ==> {
            &&& monster_of(final(objects)@.last()@, level)
            &&& room.floor(final(objects)@.last().x as int, final(objects)@.last().y as int)
            &&& !blocked_at(
                tiles(*map),
                views(old(objects)@),
                final(objects)@.last().x as int,
                final(objects)@.last().y as int,
            )
        },
{
    let mut left: i32 = PLACE_DRAWS;
    while left > 0
        invariant
            0 <= left <= PLACE_DRAWS,
            room.x1 + 1 < room.x2,
            room.y1 + 1 < room.y2,
            total == crate::spawn::monster_total(level),
            0 < total <= 200,
            objects@ == old(objects)@ || (left == 0 && objects@ == old(objects)@.push(
                objects@.last(),
            )),
            objects@.len() > old(objects)@.len() ==> {
                &&& monster_of(objects@.last()@, level)
                &&& room.floor(objects@.last().x as int, objects@.last().y as int)
                &&& !blocked_at(
                    tiles(*map),
                    views(old(objects)@),
                    objects@.last().x as int,
                    objects@.last().y as int,
                )
            },
        decreases left,
    {
        let x = roll_range(rng, room.x1 + 1, room.x2);
        let y = roll_range(rng, room.y1 + 1, room.y2);
        if !is_blocked(x, y, map, objects.as_slice()) {
            let roll = roll_range(rng, 0, total as i32) as u32;
            place_monster(x, y, roll, level, map, objects);
            assert(monster_weight(crate::spawn::monster_drawn(roll as int, level), level) > 0);
            left = 0;
        } else {
            left -= 1;
        }
    }
}

/// Puts one item on the floor of `room`: a tile is drawn, and drawn again
/// while something is in the way there, `PLACE_DRAWS` times at most; on the
/// first free tile goes an item of a kind drawn by weight.
fn settle_item(
    room: Rect,
    map: &Grid,
    objects: &mut Vec<GameObject>,
    level: u32,
    total: u32,
    rng: &mut StdRng,
)
    requires
        room.x1 + 1 < room.x2,
        room.y1 + 1 < room.y2,
        total == crate::spawn::item_total(level),
        0 < total <= 600,
    ensures
        final(objects)@ == old(objects)@ || final(objects)@ == old(objects)@.push(
            final(objects)@.last(),
        ),
        final(objects)@.len() > old(objects)@.len() ==> {
            &&& item_of(final(objects)@.last()@, level)
            &&& room.floor(final(objects)@.last().x as int, final(objects)@.last().y as int)
            &&& !blocked_at(
                tiles(*map),
                views(old(objects)@),
                final(objects)@.last().x as int,
                final(objects)@.last().y as int,
            )
        },
{
    let mut left: i32 = PLACE_DRAWS;
    while left > 0
        invariant
            0 <= left <= PLACE_DRAWS,
            room.x1 + 1 < room.x2,
            room.y1 + 1 < room.y2,
            total == crate::spawn::item_total(level),
            0 < total <= 600,
            objects@ == old(objects)@ || (left == 0 && objects@ == old(objects)@.push(
                objects@.last(),
            )),
            objects@.len() > old(objects)@.len() ==> {
                &&& item_of(objects@.last()@, level)
                &&& room.floor(objects@.last().x as int, objects@.last().y as int)
                &&& !blocked_at(
                    tiles(*map),
                    views(old(objects)@),
                    objects@.last().x as int,
                    objects@.last().y as int,
                )
            },
        decreases left,
    {
        let x = roll_range(rng, room.x1 + 1, room.x2);
        let y = roll_range(rng, room.y1 + 1, room.y2);
        if !is_blocked(x, y, map, objects.as_slice()) {
            let roll = roll_range(rng, 0, total as i32) as u32;
            place_item(x, y, roll, level, map, objects);
            assert(item_weight(crate::spawn::item_drawn(roll as int, level), level) > 0);
            left = 0;
        } else {
            left -= 1;
        }
    }
}

/// Populates `room`: first up to `MAX_ROOM_MONSTERS` monsters, then up to
/// `MAX_ROOM_ITEMS` items, each of a kind drawn by weight, each on a tile of
/// the floor drawn at random and drawn again where something is in the way.
/// How many there are of each is drawn too, and may be none.
pub fn place_objects(
    room: Rect,
    map: &Grid,
    objects: &mut Vec<GameObject>,
    level: u32,
    rng: &mut StdRng,
)
    requires
        room.x1 + 1 < room.x2,
        room.y1 + 1 < room.y2,
    ensures
        old(objects)@.len() <= final(objects)@.len() <= old(objects)@.len() + MAX_ROOM_MONSTERS
            + MAX_ROOM_ITEMS,
        final(objects)@.take(old(objects)@.len() as int) == old(objects)@,
        exists|middle: int| #[trigger]
            monsters_then_items(
                views(final(objects)@),
                old(objects)@.len() as int,
                middle,
                level,
            ),
        forall|i: int|
            old(objects)@.len() <= i < final(objects)@.len() ==> {
                &&& spawned((#[trigger] final(objects)@[i])@, room, level)
                &&& !blocked_at(
                    tiles(*map),
                    views(final(objects)@.take(i)),
                    final(objects)@[i].x as int,
                    final(objects)@[i].y as int,
                )
            },
        uncrowded(views(old(objects)@)) ==> uncrowded(views(final(objects)@)),
{
    let ghost start = objects@.len();
    let num_monsters = roll_range(rng, 0, MAX_ROOM_MONSTERS + 1);
    let monster_total = monster_chances(level);
    let mut n: i32 = 0;
    while n < num_monsters
        invariant
            0 <= n <= num_monsters <= MAX_ROOM_MONSTERS,
            room.x1 + 1 < room.x2,
            room.y1 + 1 < room.y2,
            monster_total == crate::spawn::monster_total(level),
            monster_total <= 200,
            start <= objects@.len() <= start + n,
            objects@.take(start as int) == old(objects)@,
            forall|i: int| start <= i < objects@.len() ==> monster_of(#[trigger] views(objects@)[i], level),
            forall|i: int|
                start <= i < objects@.len() ==> {
                    &&& spawned((#[trigger] objects@[i])@, room, level)
                    &&& !blocked_at(
                        tiles(*map),
                        views(objects@.take(i)),
                        objects@[i].x as int,
                        objects@[i].y as int,
                    )
                },
        decreases num_monsters - n,
    {
        if monster_total > 0 {
            let ghost before = objects@;
            settle_monster(room, map, objects, level, monster_total, rng);
            proof {
                if objects@.len() > before.len() {
                    let last = before.len() as int;
                    assert(objects@.take(last) =~= before);
                    assert(objects@.take(start as int) =~= before.take(start as int));
                    assert forall|i: int| start <= i < last implies objects@.take(i) == before.take(
                        i,
                    ) by {
                        assert(objects@.take(i) =~= before.take(i));
                    }
                    assert forall|i: int| start <= i < objects@.len() implies monster_of(
                        #[trigger] views(objects@)[i],
                        level,
                    ) by {
                        if i < last {
                            assert(views(objects@)[i] == views(before)[i]);
                        }
                    }
                }
            }
        }
        n += 1;
    }
    let num_items = roll_range(rng, 0, MAX_ROOM_ITEMS + 1);
    let item_total = item_chances(level);
    let ghost middle = objects@.len();
    let mut n: i32 = 0;
    while n < num_items
        invariant
            0 <= n <= num_items <= MAX_ROOM_ITEMS,
            room.x1 + 1 < room.x2,
            room.y1 + 1 < room.y2,
            item_total == crate::spawn::item_total(level),
            item_total <= 600,
            start <= middle <= start + MAX_ROOM_MONSTERS,
            middle <= objects@.len() <= middle + n,
            objects@.take(start as int) == old(objects)@,
            forall|i: int| start <= i < middle ==> monster_of(#[trigger] views(objects@)[i], level),
            forall|i: int| middle <= i < objects@.len() ==> item_of(#[trigger] views(objects@)[i], level),
            forall|i: int|
                start <= i < objects@.len() ==> {
                    &&& spawned((#[trigger] objects@[i])@, room, level)
                    &&& !blocked_at(
                        tiles(*map),
                        views(objects@.take(i)),
                        objects@[i].x as int,
                        objects@[i].y as int,
                    )
                },
        decreases num_items - n,
    {
        if item_total > 0 {
            let ghost before = objects@;
            settle_item(room, map, objects, level, item_total, rng);
            proof {
                if objects@.len() > before.len() {
                    let last = before.len() as int;
                    assert(objects@.take(last) =~= before);
                    assert(objects@.take(start as int) =~= before.take(start as int));
                    assert forall|i: int| start <= i < last implies objects@.take(i) == before.take(
                        i,
                    ) by {
                        assert(objects@.take(i) =~= before.take(i));
                    }
                    assert forall|i: int| start <= i < middle implies monster_of(
                        #[trigger] views(objects@)[i],
                        level,
                    ) by {
                        assert(views(objects@)[i] == views(before)[i]);
                    }
                    assert forall|i: int| middle <= i < objects@.len() implies item_of(
                        #[trigger] views(objects@)[i],
                        level,
                    ) by {
                        if i < last {
                            assert(views(objects@)[i] == views(before)[i]);
                        }
                    }
                }
            }
        }
        n += 1;
    }
    assert(monsters_then_items(views(objects@), start as int, middle as int, level));
    proof {
        if uncrowded(views(old(objects)@)) {
            let all = views(objects@);
            assert forall|i: int, j: int|
                0 <= i < j < all.len() && (#[trigger] all[i]).blocks && (#[trigger] all[j]).blocks implies !(
            all[i].x == all[j].x && all[i].y == all[j].y) by {
                if j < start {
                    assert(objects@.take(start as int)[i] == old(objects)@[i]);
                    assert(objects@.take(start as int)[j] == old(objects)@[j]);
                    assert(all[i] == views(old(objects)@)[i]);
                    assert(all[j] == views(old(objects)@)[j]);
                } else {
                    let earlier = views(objects@.take(j));
                    assert(spawned(objects@[j]@, room, level));
                    assert(!blocked_at(tiles(*map), earlier, all[j].x as int, all[j].y as int));
                    assert(earlier[i] == all[i]);
                    if all[i].x == all[j].x && all[i].y == all[j].y {
                        assert(crate::game_object::occupied(earlier, all[j].x as int, all[j].y as int));
                    }
                }
            }
        }
    }
}

/// Rock everywhere.
fn solid_rock() -> (map: Grid)
    ensures
        full_size(tiles(map)),
        forall|x: int, y: int|
            on_grid(tiles(map), x, y) ==> #[trigger] tiles(map)[x][y] == (Tile {
                blocked: true,
                block_sight: true,
                explored: false,
            }),
{
    let mut map: Grid = Vec::new();
    let mut x: i32 = 0;
    while x < MAP_WIDTH
        invariant
            0 <= x <= MAP_WIDTH,
            map@.len() == x,
            forall|a: int| 0 <= a < x ==> (#[trigger] map@[a])@.len() == MAP_HEIGHT,
            forall|a: int, b: int|
                0 <= a < x && 0 <= b < MAP_HEIGHT ==> #[trigger] map@[a]@[b] == (Tile {
                    blocked: true,
                    block_sight: true,
                    explored: false,
                }),
        decreases MAP_WIDTH - x,
    {
        let mut column: Vec<Tile> = Vec::new();
        let mut y: i32 = 0;
        while y < MAP_HEIGHT
            invariant
                0 <= y <= MAP_HEIGHT,
                column@.len() == y,
                forall|b: int|
                    0 <= b < y ==> #[trigger] column@[b] == (Tile {
                        blocked: true,
                        block_sight: true,
                        explored: false,
                    }),
            decreases MAP_HEIGHT - y,
        {
            column.push(Tile::wall());
            y += 1;
        }
        map.push(column);
        x += 1;
    }
    map
}

/// The way down: where it stands and what it looks like.
pub open spec fn stairs_view(x: i32, y: i32) -> ObjectView {
    ObjectView {
        x,
        y,
        glyph: '<',
        name: "stairs"@,
        color: white(),
        blocks: false,
        alive: false,
        fighter: None,
        ai: None,
        item: None,
        equipment: None,
        always_visible: true,
        level: 1,
    }
}

/// Every tile is either rock or floor, and none has been seen yet.
pub open spec fn pristine(tiles: Seq<Seq<Tile>>) -> bool {
    forall|x: int, y: int|
        on_grid(tiles, x, y) ==> {
            ||| #[trigger] tiles[x][y] == (Tile { blocked: true, block_sight: true, explored: false })
            ||| tiles[x][y] == (Tile { blocked: false, block_sight: false, explored: false })
        }
}

/// A freshly generated level: the grid, the rooms in the order in which
/// they were accepted, and for each room whether the corridor that leads to
/// it from the room before runs along the row first (for the first room,
/// which has none, `false`).
pub struct Dungeon {
    pub map: Grid,
    pub rooms: Vec<Rect>,
    pub bends: Vec<bool>,
}

/// What holds of every generated level. `player` is the player as it came,
/// `objects` the entities of the new level.
pub open spec fn laid_out(
    tiles: Seq<Seq<Tile>>,
    rooms: Seq<Rect>,
    bends: Seq<bool>,
    player: ObjectView,
    objects: Seq<ObjectView>,
    level: u32,
) -> bool {
    &&& full_size(tiles)
    &&& pristine(tiles)
    &&& walled_in(tiles)
    &&& as_planned(tiles, rooms, bends)
    &&& bends.len() == rooms.len()
    &&& 1 <= rooms.len() <= MAX_ROOMS
    &&& forall|i: int| 0 <= i < rooms.len() ==> room_fits(#[trigger] rooms[i])
    &&& rooms_apart(rooms)
    &&& forall|i: int| 0 <= i < rooms.len() ==> floor_open(tiles, #[trigger] rooms[i])
    &&& all_reachable(tiles, rooms[0].center_spec())
    &&& objects.len() >= 2
    &&& uncrowded(objects)
    &&& objects[0] == (ObjectView {
        x: rooms[0].center_spec().0 as i32,
        y: rooms[0].center_spec().1 as i32,
        ..player
    })
    &&& objects.last() == stairs_view(
        rooms.last().center_spec().0 as i32,
        rooms.last().center_spec().1 as i32,
    )
    &&& forall|i: int|
        1 <= i < objects.len() - 1 ==> exists|r: int|
            0 <= r < rooms.len() && spawned(#[trigger] objects[i], #[trigger] rooms[r], level)
}

/// Builds a level: up to `MAX_ROOMS` rooms that keep apart, each joined to
/// the one before by a bent corridor, each populated for dungeon level
/// `level`; the player, who alone remains of `objects`, at the centre of the
/// first room and the way down at the centre of the last.
pub fn generate(objects: &mut Vec<GameObject>, level: u32, rng: &mut StdRng) -> (dungeon: Dungeon)
    requires
        old(objects)@.len() > 0,
    ensures
        laid_out(
            tiles(dungeon.map),
            dungeon.rooms@,
            dungeon.bends@,
            old(objects)@[0]@,
            views(final(objects)@),
            level,
        ),
{
    let mut map = solid_rock();
    let mut rooms: Vec<Rect> = Vec::new();
    let mut bends: Vec<bool> = Vec::new();
    objects.truncate(1);
    let ghost player = old(objects)@[0]@;
    assert(objects@[0] == old(objects)@[0]);
    let mut tries: i32 = 0;
    while tries < MAX_ROOMS
        invariant
            0 <= tries <= MAX_ROOMS,
            rooms@.len() <= tries,
            tries > 0 ==> rooms@.len() > 0,
            full_size(tiles(map)),
            pristine(tiles(map)),
            walled_in(tiles(map)),
            as_planned(tiles(map), rooms@, bends@),
            bends@.len() == rooms@.len(),
            forall|i: int| 0 <= i < rooms@.len() ==> room_fits(#[trigger] rooms@[i]),
            rooms_apart(rooms@),
            forall|i: int| 0 <= i < rooms@.len() ==> floor_open(tiles(map), #[trigger] rooms@[i]),
            rooms@.len() == 0 ==> forall|x: int, y: int| !#[trigger] open_tile(tiles(map), x, y),
            rooms@.len() > 0 ==> all_reachable(tiles(map), rooms@[0].center_spec()),
            objects@.len() >= 1,
            rooms@.len() == 0 ==> objects@.len() == 1,
            uncrowded(views(objects@)),
            rooms@.len() == 0 ==> objects@[0]@ == player,
            rooms@.len() > 0 ==> objects@[0]@ == (ObjectView {
                x: rooms@[0].center_spec().0 as i32,
                y: rooms@[0].center_spec().1 as i32,
                ..player
            }),
            forall|i: int|
                1 <= i < objects@.len() ==> exists|r: int|
                    0 <= r < rooms@.len() && spawned(
                        (#[trigger] objects@[i])@,
                        #[trigger] rooms@[r],
                        level,
                    ),
        decreases MAX_ROOMS - tries,
    {
        let w = roll_range(rng, ROOM_MIN_SIZE, ROOM_MAX_SIZE + 1);
        let h = roll_range(rng, ROOM_MIN_SIZE, ROOM_MAX_SIZE + 1);
        let x = roll_range(rng, 0, MAP_WIDTH - w);
        let y = roll_range(rng, 0, MAP_HEIGHT - h);
        let new_room = Rect::new(x, y, w, h);
        let failed = intersects_any(&new_room, &rooms);
        if !failed {
            let ghost before = tiles(map);
            let ghost old_rooms = rooms@;
            let ghost old_bends = bends@;
            assert(room_fits(new_room));
            create_room(new_room, &mut map);
            let ghost carved = tiles(map);
            assert(full_size(carved));
            let (new_x, new_y) = new_room.center();
            if rooms.len() == 0 {
                objects[PLAYER].set_pos(new_x, new_y);
            }
            let ghost old_objects = objects@;
            assert(uncrowded(views(old_objects)));
            place_objects(new_room, &map, objects, level, rng);
            let ghost centre = new_room.center_spec();
            let ghost mut bend = false;
            let ghost mut from = centre;
            assert(new_room.floor(centre.0, centre.1));
            assert(objects@[0] == old_objects[0]) by {
                assert(objects@.take(old_objects.len() as int)[0] == old_objects[0]);
            }
            if rooms.len() == 0 {
                proof {
                    assert forall|a: int, b: int| on_grid(before, a, b) implies (#[trigger] open_tile(
                        carved,
                        a,
                        b,
                    ) <==> new_room.floor(a, b)) by {
                        let t1 = carved[a][b];
                        assert(!open_tile(before, a, b));
                    }
                    lemma_first_room(before, carved, new_room, centre);
                }
                bends.push(false);
            } else {
                let (prev_x, prev_y) = rooms[rooms.len() - 1].center();
                let ghost previous = rooms@[rooms@.len() - 1];
                proof {
                    from = previous.center_spec();
                }
                assert(room_fits(previous));
                assert(previous.floor(from.0, from.1));
                assert(floor_open(before, previous));
                assert(open_tile(before, from.0, from.1));
                let row_first = roll_bool(rng);
                proof {
                    bend = row_first;
                }
                connect((prev_x, prev_y), (new_x, new_y), row_first, &mut map);
                proof {
                    let after = tiles(map);
                    assert(same_shape(before, after));
                    assert forall|a: int, b: int| on_grid(before, a, b) implies (#[trigger] open_tile(
                        after,
                        a,
                        b,
                    ) <==> open_tile(before, a, b) || new_room.floor(a, b) || on_link(
                        from,
                        centre,
                        row_first,
                        a,
                        b,
                    )) by {
                        assert(on_grid(carved, a, b));
                        let t1 = carved[a][b];
                        let t2 = after[a][b];
                    }
                    lemma_room_linked(
                        before,
                        after,
                        rooms@[0].center_spec(),
                        from,
                        new_room,
                        centre,
                        row_first,
                    );
                }
                bends.push(row_first);
            }
            rooms.push(new_room);
            proof {
                let after = tiles(map);
                assert(same_shape(before, after));
                assert forall|a: int, b: int| open_tile(before, a, b) implies #[trigger] open_tile(
                    after,
                    a,
                    b,
                ) by {
                    assert(on_grid(carved, a, b));
                    let t1 = carved[a][b];
                    let t2 = after[a][b];
                }
                assert forall|i: int| 0 <= i < rooms@.len() implies floor_open(
                    after,
                    #[trigger] rooms@[i],
                ) by {
                    let room = rooms@[i];
                    assert forall|a: int, b: int| room.floor(a, b) implies #[trigger] open_tile(
                        after,
                        a,
                        b,
                    ) by {
                        assert(on_grid(carved, a, b));
                        let t1 = carved[a][b];
                        let t2 = after[a][b];
                        if i < old_rooms.len() {
                            assert(room == old_rooms[i]);
                            assert(floor_open(before, room));
                            assert(open_tile(before, a, b));
                        }
                    }
                }
                assert(pristine(after)) by {
                    assert forall|a: int, b: int| on_grid(after, a, b) implies {
                        ||| #[trigger] after[a][b] == (Tile {
                            blocked: true,
                            block_sight: true,
                            explored: false,
                        })
                        ||| after[a][b] == (Tile {
                            blocked: false,
                            block_sight: false,
                            explored: false,
                        })
                    } by {
                        assert(on_grid(carved, a, b));
                        assert(on_grid(before, a, b));
                        let t0 = before[a][b];
                        let t1 = carved[a][b];
                    }
                }
                assert(walled_in(after)) by {
                    assert forall|a: int, b: int| #[trigger] open_tile(after, a, b) implies 0 < a
                        < MAP_WIDTH - 1 && 0 < b < MAP_HEIGHT - 1 by {
                        assert(on_grid(carved, a, b));
                        assert(on_grid(before, a, b));
                        let t0 = before[a][b];
                        let t1 = carved[a][b];
                        if open_tile(before, a, b) {
                        } else if old_rooms.len() > 0 {
                            let previous = old_rooms[old_rooms.len() - 1];
                            assert(room_fits(previous));
                        }
                    }
                }
                assert(as_planned(after, rooms@, bends@)) by {
                    let last = rooms@.len() - 1;
                    assert(rooms@[last] == new_room);
                    assert(bends@[last] == bend);
                    assert forall|a: int, b: int| #[trigger] open_tile(after, a, b) implies planned(
                        rooms@,
                        bends@,
                        a,
                        b,
                    ) by {
                        assert(on_grid(carved, a, b));
                        assert(on_grid(before, a, b));
                        let t0 = before[a][b];
                        let t1 = carved[a][b];
                        if open_tile(before, a, b) {
                            assert(planned(old_rooms, old_bends, a, b));
                            let i = choose|i: int|
                                0 <= i < old_rooms.len() && #[trigger] on_plan(
                                    old_rooms,
                                    old_bends,
                                    i,
                                    a,
                                    b,
                                );
                            assert(rooms@[i] == old_rooms[i]);
                            assert(bends@[i] == old_bends[i]);
                            if i > 0 {
                                assert(rooms@[i - 1] == old_rooms[i - 1]);
                            }
                            assert(on_plan(rooms@, bends@, i, a, b));
                        } else if new_room.floor(a, b) {
                            assert(on_plan(rooms@, bends@, last, a, b));
                        } else {
                            assert(old_rooms.len() > 0);
                            assert(rooms@[last - 1] == old_rooms[old_rooms.len() - 1]);
                            assert(on_link(from, centre, bend, a, b));
                            assert(on_plan(rooms@, bends@, last, a, b));
                        }
                    }
                    assert forall|a: int, b: int| #[trigger]
                        planned(rooms@, bends@, a, b) implies open_tile(after, a, b) by {
                        let i = choose|i: int|
                            0 <= i < rooms@.len() && #[trigger] on_plan(rooms@, bends@, i, a, b);
                        if i < last {
                            assert(rooms@[i] == old_rooms[i]);
                            assert(bends@[i] == old_bends[i]);
                            if i > 0 {
                                assert(rooms@[i - 1] == old_rooms[i - 1]);
                            }
                            assert(on_plan(old_rooms, old_bends, i, a, b));
                            assert(planned(old_rooms, old_bends, a, b));
                            assert(open_tile(before, a, b));
                        } else if new_room.floor(a, b) {
                            assert(floor_open(after, rooms@[last]));
                        } else {
                            assert(old_rooms.len() > 0);
                            let previous = old_rooms[old_rooms.len() - 1];
                            assert(rooms@[last - 1] == previous);
                            assert(room_fits(previous));
                            assert(on_link(from, centre, bend, a, b));
                            assert(on_grid(before, a, b));
                            assert(on_grid(carved, a, b));
                            let t1 = carved[a][b];
                            let t2 = after[a][b];
                        }
                    }
                }
                assert(rooms_apart(rooms@)) by {
                    assert forall|i: int, j: int| 0 <= i < j < rooms@.len() implies !(
                    #[trigger] rooms@[i]).intersects(#[trigger] rooms@[j]) by {
                        if j < old_rooms.len() {
                            assert(rooms@[i] == old_rooms[i]);
                            assert(rooms@[j] == old_rooms[j]);
                        } else {
                            assert(rooms@[i] == old_rooms[i]);
                            assert(!new_room.intersects(old_rooms[i]));
                        }
                    }
                }
                assert(rooms@[0] == if old_rooms.len() == 0 {
                    new_room
                } else {
                    old_rooms[0]
                });
                assert forall|i: int| 1 <= i < objects@.len() implies exists|r: int|
                    0 <= r < rooms@.len() && spawned(
                        (#[trigger] objects@[i])@,
                        #[trigger] rooms@[r],
                        level,
                    ) by {
                    if i < old_objects.len() {
                        assert(objects@.take(old_objects.len() as int)[i] == old_objects[i]);
                        let r = choose|r: int|
                            0 <= r < old_rooms.len() && spawned(
                                (#[trigger] old_objects[i])@,
                                #[trigger] old_rooms[r],
                                level,
                            );
                        assert(rooms@[r] == old_rooms[r]);
                    } else {
                        assert(rooms@[rooms@.len() - 1] == new_room);
                    }
                }
            }
        }
        tries += 1;
    }
    let (last_room_x, last_room_y) = rooms[rooms.len() - 1].center();
    let mut stairs = GameObject::new(last_room_x, last_room_y, '<', "stairs", white(), false);
    stairs.always_visible = true;
    assert(stairs@ =~= stairs_view(last_room_x, last_room_y));
    let ghost populated = objects@;
    objects.push(stairs);
    proof {
        assert forall|i: int| 1 <= i < views(objects@).len() - 1 implies exists|r: int|
            0 <= r < rooms@.len() && spawned(
                #[trigger] views(objects@)[i],
                #[trigger] rooms@[r],
                level,
            ) by {
            assert(objects@[i] == populated[i]);
            let r = choose|r: int|
                0 <= r < rooms@.len() && spawned(
                    (#[trigger] populated[i])@,
                    #[trigger] rooms@[r],
                    level,
                );
            assert(spawned(views(objects@)[i], rooms@[r], level));
        }
        assert(views(objects@)[0] == populated[0]@);
        assert(uncrowded(views(objects@))) by {
            let all = views(objects@);
            assert forall|i: int, j: int|
                0 <= i < j < all.len() && (#[trigger] all[i]).blocks && (#[trigger] all[j]).blocks implies !(
            all[i].x == all[j].x && all[i].y == all[j].y) by {
                if j < populated.len() {
                    assert(all[i] == views(populated)[i]);
                    assert(all[j] == views(populated)[j]);
                } else {
                    assert(!all[j].blocks);
                }
            }
        }
    }
    Dungeon { map, rooms, bends }
}

/// In a generated level, every open tile can be reached from the tile the
/// player starts on by a walk over open tiles.
pub proof fn lemma_level_connected(
    tiles: Seq<Seq<Tile>>,
    rooms: Seq<Rect>,
    bends: Seq<bool>,
    player: ObjectView,
    objects: Seq<ObjectView>,
    level: u32,
)
    requires
        laid_out(tiles, rooms, bends, player, objects, level),
    ensures
        all_reachable(tiles, (objects[0].x as int, objects[0].y as int)),
        open_tile(tiles, objects[0].x as int, objects[0].y as int),
{
    let room = rooms[0];
    assert(room_fits(room));
    assert(floor_open(tiles, room));
    assert(room.floor(room.center_spec().0, room.center_spec().1));
}

/// In a generated level, the corridor from each room's centre to the next
/// room's is open along its whole length, and so is every room's floor.
pub proof fn lemma_corridors_open(
    tiles: Seq<Seq<Tile>>,
    rooms: Seq<Rect>,
    bends: Seq<bool>,
    player: ObjectView,
    objects: Seq<ObjectView>,
    level: u32,
    i: int,
    x: int,
    y: int,
)
    requires
        laid_out(tiles, rooms, bends, player, objects, level),
        0 <= i < rooms.len(),
        rooms[i].floor(x, y) || (i > 0 && on_link(
            rooms[i - 1].center_spec(),
            rooms[i].center_spec(),
            bends[i],
            x,
            y,
        )),
    ensures
        open_tile(tiles, x, y),
{
    assert(on_plan(rooms, bends, i, x, y));
    assert(planned(rooms, bends, x, y));
}

/// In a generated level, no two rooms share a point, borders included.
pub proof fn lemma_rooms_apart(
    tiles: Seq<Seq<Tile>>,
    rooms: Seq<Rect>,
    bends: Seq<bool>,
    player: ObjectView,
    objects: Seq<ObjectView>,
    level: u32,
    i: int,
    j: int,
)
    requires
        laid_out(tiles, rooms, bends, player, objects, level),
        0 <= i < rooms.len(),
        0 <= j < rooms.len(),
        i != j,
    ensures
        !rooms[i].intersects(rooms[j]),
{
    if i < j {
        assert(!rooms[i].intersects(rooms[j]));
    } else {
        assert(!rooms[j].intersects(rooms[i]));
    }
}

/// Builds a level and returns its grid.
pub fn make_map(objects: &mut Vec<GameObject>, level: u32, rng: &mut StdRng) -> (map: Grid)
    requires
        old(objects)@.len() > 0,
    ensures
        exists|rooms: Seq<Rect>, bends: Seq<bool>| #[trigger]
            laid_out(tiles(map), rooms, bends, old(objects)@[0]@, views(final(objects)@), level),
{
    let dungeon = generate(objects, level, rng);
    dungeon.map
}

/// Half of `n`, rounded toward zero.
pub open spec fn half(n: int) -> int {
    if n >= 0 {
        n / 2
    } else {
        -((-n) / 2)
    }
}

} // verus!
