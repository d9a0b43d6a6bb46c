//! Choosing what a spell is cast at.

use crate::fov::FovMap;
use crate::game_object::{
    first_such, lemma_first_such_is, views, GameObject, ObjectView, PLAYER,
};
use crate::map::{MAP_HEIGHT, MAP_WIDTH};
use vstd::prelude::*;

verus! {

/// Whether `object` is a monster the player can see: it fights, acts and
/// stands in view.
pub open spec fn hostile_in_view(object: ObjectView, fov: FovMap) -> bool {
    object.fighter is Some && object.ai is Some && fov.sees(object.x as int, object.y as int)
}

/// Square of the distance between the player and entity number `i`.
pub open spec fn gap_sq(objects: Seq<ObjectView>, i: int) -> int {
    objects[0].distance_sq(objects[i].x as int, objects[i].y as int)
}

/// Whether entity number `i` is within `max_range` of the player: no
/// further away than that. Nothing is within a negative range.
pub open spec fn in_range(objects: Seq<ObjectView>, i: int, max_range: int) -> bool {
    max_range >= 0 && gap_sq(objects, i) <= max_range * max_range
}

/// The closest monster in view among the entities before number `n`, the
/// player left out, that is within `max_range`; of several equally close,
/// the first.
pub open spec fn closest(objects: Seq<ObjectView>, fov: FovMap, max_range: int, n: int) -> Option<int>
    decreases n,
{
    if n <= 1 {
        None
    } else {
        let before = closest(objects, fov, max_range, n - 1);
        let nearer = match before {
            Some(b) => gap_sq(objects, n - 1) < gap_sq(objects, b),
            None => true,
        };
        if hostile_in_view(objects[n - 1], fov) && in_range(objects, n - 1, max_range) && nearer {
            Some(n - 1)
        } else {
            before
        }
    }
}

/// `closest` in terms of distances: what it finds is a monster in view and
/// within range, strictly closer than every monster in view before it and
/// at least as close as every one after it; it finds nothing only where no
/// monster in view is within range.
pub proof fn lemma_closest(objects: Seq<ObjectView>, fov: FovMap, max_range: int, n: int)
    requires
        n <= objects.len(),
    ensures
        match closest(objects, fov, max_range, n) {
            Some(i) => {
                &&& 1 <= i < n
                &&& hostile_in_view(objects[i], fov)
                &&& in_range(objects, i, max_range)
                &&& forall|j: int|
                    1 <= j < n && hostile_in_view(#[trigger] objects[j], fov) ==> gap_sq(objects, i)
                        <= gap_sq(objects, j) && (j < i ==> gap_sq(objects, i) < gap_sq(objects, j))
            },
            None => forall|j: int|
                1 <= j < n && hostile_in_view(#[trigger] objects[j], fov) ==> !in_range(
                    objects,
                    j,
                    max_range,
                ),
        },
    decreases n,
{
    if n > 1 {
        lemma_closest(objects, fov, max_range, n - 1);
    }
}

/// The closest monster in view that is within `max_range` of the player.
pub fn closest_monster(fov: &FovMap, objects: &[GameObject], max_range: i32) -> (found: Option<
    usize,
>)
    ensures
        match found {
            Some(i) => closest(views(objects@), *fov, max_range as int, objects@.len() as int)
                == Some(i as int) && 1 <= i < objects@.len(),
            None => closest(views(objects@), *fov, max_range as int, objects@.len() as int)
                is None,
        },
{
    let mut closest_enemy: Option<usize> = None;
    let range = max_range as i128;
    assert(0 <= range * range <= 0x1_0000_0000 * 0x1_0000_0000) by (nonlinear_arith)
        requires
            -0x1_0000_0000 <= range <= 0x1_0000_0000,
    ;
    let range_sq: i128 = range * range;
    let mut closest_dist: i128 = 0;
    if objects.len() == 0 {
        return None;
    }
    let mut id: usize = 1;
    while id < objects.len()
        invariant
            1 <= id <= objects@.len(),
            range == max_range,
            range_sq == max_range * max_range,
            match closest_enemy {
                Some(i) => closest(views(objects@), *fov, max_range as int, id as int) == Some(
                    i as int,
                ) && 1 <= i < id && closest_dist == gap_sq(views(objects@), i as int),
                None => closest(views(objects@), *fov, max_range as int, id as int) is None,
            },
        decreases objects@.len() - id,
    {
        let object = &objects[id];
        if object.fighter.is_some() && object.ai.is_some() && fov.is_in_fov(object.x, object.y) {
            let dist = objects[PLAYER].distance_sq_to(object);
            let nearer = match closest_enemy {
                Some(_) => dist < closest_dist,
                None => true,
            };
            if range >= 0 && dist <= range_sq && nearer {
                closest_enemy = Some(id);
                closest_dist = dist;
            }
        }
        id += 1;
    }
    closest_enemy
}

/// Where the pointer is and which buttons and keys were pressed.
#[derive(Clone, Copy, Debug, PartialEq, Eq, Structural)]
pub struct Pointer {
    pub x: i32,
    pub y: i32,
    pub left_pressed: bool,
    pub right_pressed: bool,
    pub escape: bool,
}

/// How far a choice has come.
#[derive(Debug, PartialEq, Eq)]
pub enum Aim<T> {
    /// The player has chosen.
    Chosen(T),
    /// The player has given up.
    Cancelled,
    /// The player has not decided yet.
    Pending,
}

/// Whether the tile `(x, y)` can be chosen: it is on the map and in view
/// and, where a range is given, no further from the player than that.
pub open spec fn can_target(
    objects: Seq<ObjectView>,
    fov: FovMap,
    max_range: Option<i32>,
    x: int,
    y: int,
) -> bool {
    &&& x < MAP_WIDTH
    &&& y < MAP_HEIGHT
    &&& fov.sees(x, y)
    &&& match max_range {
        Some(range) => range >= 0 && objects[0].distance_sq(x, y) <= range * range,
        None => true,
    }
}

/// What the pointer says of the tile to aim at: a left click on a tile that
/// can be chosen chooses it; otherwise a right click or the escape key gives
/// up.
pub open spec fn tile_aim(
    pointer: Pointer,
    objects: Seq<ObjectView>,
    fov: FovMap,
    max_range: Option<i32>,
) -> Aim<(i32, i32)> {
    if pointer.left_pressed && can_target(objects, fov, max_range, pointer.x as int, pointer.y as int) {
        Aim::Chosen((pointer.x, pointer.y))
    } else if pointer.right_pressed || pointer.escape {
        Aim::Cancelled
    } else {
        Aim::Pending
    }
}

/// What the pointer says of the tile to aim at.
pub fn target_tile(pointer: &Pointer, fov: &FovMap, objects: &[GameObject], max_range: Option<i32>) -> (aim:
    Aim<(i32, i32)>)
    requires
        max_range is Some ==> objects@.len() > 0,
    ensures
        aim == tile_aim(*pointer, views(objects@), *fov, max_range),
{
    let (x, y) = (pointer.x, pointer.y);
    let in_fov = (x < MAP_WIDTH) && (y < MAP_HEIGHT) && fov.is_in_fov(x, y);
    let in_range = match max_range {
        Some(range) => {
            let range = range as i128;
            assert(0 <= range * range <= 0x1_0000_0000 * 0x1_0000_0000) by (nonlinear_arith)
                requires
                    -0x1_0000_0000 <= range <= 0x1_0000_0000,
            ;
            range >= 0 && objects[PLAYER].distance_sq(x, y) <= range * range
        },
        None => true,
    };
    if pointer.left_pressed && in_fov && in_range {
        return Aim::Chosen((x, y));
    }
    if pointer.right_pressed || pointer.escape {
        return Aim::Cancelled;
    }
    Aim::Pending
}

/// For each entity, whether it is a monster standing on `(x, y)`: a fighter
/// other than the player.
pub open spec fn monsters_at(objects: Seq<ObjectView>, x: int, y: int) -> Seq<bool> {
    Seq::new(
        objects.len(),
        |i: int| i != 0 && objects[i].fighter is Some && objects[i].x == x && objects[i].y == y,
    )
}

/// The first monster standing on `(x, y)`, if any.
pub fn monster_at(objects: &[GameObject], x: i32, y: i32) -> (found: Option<usize>)
    ensures
        match found {
            Some(i) => first_such(monsters_at(views(objects@), x as int, y as int)) == Some(i as int),
            None => first_such(monsters_at(views(objects@), x as int, y as int)) is None,
        },
        found matches Some(i) ==> 0 < i < objects@.len(),
{
    let ghost hits = monsters_at(views(objects@), x as int, y as int);
    let mut i: usize = 0;
    while i < objects.len()
        invariant
            i <= objects@.len(),
            hits == monsters_at(views(objects@), x as int, y as int),
            forall|j: int| 0 <= j < i ==> !hits[j],
        decreases objects@.len() - i,
    {
        if objects[i].x == x && objects[i].y == y && objects[i].fighter.is_some() && i != PLAYER {
            proof {
                lemma_first_such_is(hits, Some(i as int));
            }
            return Some(i);
        }
        i += 1;
    }
    proof {
        lemma_first_such_is(hits, None);
    }
    None
}

/// What the pointer says of the monster to aim at: the first monster on the
/// tile it chooses; a tile without one leaves the choice open.
pub open spec fn monster_aim(
    pointer: Pointer,
    objects: Seq<ObjectView>,
    fov: FovMap,
    max_range: Option<i32>,
) -> Aim<usize> {
    match tile_aim(pointer, objects, fov, max_range) {
        Aim::Chosen((x, y)) => match first_such(monsters_at(objects, x as int, y as int)) {
            Some(i) => Aim::Chosen(i as usize),
            None => Aim::Pending,
        },
        Aim::Cancelled => Aim::Cancelled,
        Aim::Pending => Aim::Pending,
    }
}

/// What the pointer says of the monster to aim at.
pub fn target_monster(pointer: &Pointer, fov: &FovMap, objects: &[GameObject], max_range: Option<i32>) -> (aim:
    Aim<usize>)
    requires
        max_range is Some ==> objects@.len() > 0,
    ensures
        aim == monster_aim(*pointer, views(objects@), *fov, max_range),
{
    match target_tile(pointer, fov, objects, max_range) {
        Aim::Chosen((x, y)) => match monster_at(objects, x, y) {
            Some(id) => Aim::Chosen(id),
            None => Aim::Pending,
        },
        Aim::Cancelled => Aim::Cancelled,
        Aim::Pending => Aim::Pending,
    }
}

} // verus!
