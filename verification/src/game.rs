//! The world beside the entities, and the turn scheduler.

use crate::ai::{monsters_turn, round, round_done, round_fits, steps};
use crate::colors::{red, violet, white, Color};
use crate::fov::FovMap;
use crate::game_object::{
    blocked_at, blow_fits, fight, fight_log, fighters_at, find_fighter_at, first_such, fits_i32,
    is_blocked, lemma_first_such_is, moved, player_move_or_attack, views, DeathCallback, Fighter,
    GameObject, ObjectView, PlayerAction, PLAYER,
};
use crate::inventory::{
    cast_fits, drop_item, dropped, pick_item_up, picked_up, use_item, used, world, World,
};
use crate::map::{half, laid_out, make_map, on_grid, same_shape, tiles, Grid, Rect, Tile};
use crate::panel::Messages;
use rand::rngs::StdRng;
use vstd::prelude::*;
use vstd::string::*;

verus! {

/// Width of the screen, in cells.
pub const SCREEN_WIDTH: i32 = 80;

/// Height of the screen, in cells.
pub const SCREEN_HEIGHT: i32 = 50;

/// Frames per second at most.
pub const LIMIT_FPS: i32 = 20;

/// Everything of the world but the entities that walk it.
pub struct Game {
    pub game_map: Grid,
    pub messages: Messages,
    pub inventory: Vec<GameObject>,
    pub dungeon_level: u32,
}

/// The message log as the contracts see it.
pub type Log = Seq<(Seq<char>, Color)>;

impl Game {
    /// What the player carries.
    pub open spec fn carried(self) -> Seq<ObjectView> {
        views(self.inventory@)
    }

    /// The dungeon's tiles.
    pub open spec fn grid(self) -> Seq<Seq<Tile>> {
        tiles(self.game_map)
    }

    /// Whether `self` is on the same level of the same dungeon as `before`.
    pub open spec fn same_place(self, before: Game) -> bool {
        self.game_map == before.game_map && self.dungeon_level == before.dungeon_level
    }

    /// Whether `self` is `before` with, at most, a longer log.
    pub open spec fn only_log_differs(self, before: Game) -> bool {
        &&& self.game_map == before.game_map
        &&& self.inventory == before.inventory
        &&& self.dungeon_level == before.dungeon_level
    }
}

/// The player at the start of a game.
pub open spec fn fresh_player() -> ObjectView {
    ObjectView {
        x: 0,
        y: 0,
        glyph: '@',
        name: "player"@,
        color: white(),
        blocks: true,
        alive: true,
        fighter: Some(
            Fighter {
                hp: 100,
                base_max_hp: 100,
                base_defense: 1,
                base_power: 4,
                xp: 0,
                on_death: DeathCallback::Player,
            },
        ),
        ai: None,
        item: None,
        equipment: None,
        always_visible: false,
        level: 1,
    }
}

/// What greets the player.
pub open spec fn welcome() -> Seq<char> {
    "Welcom stranger! Prepare to parish in the Tombs of the Ancient Kinds."@
}

/// Starts a game: a fresh player on the first level of a new dungeon, with
/// empty hands and a greeting in the log.
pub fn new_game(rng: &mut StdRng) -> (started: (Game, Vec<GameObject>))
    ensures
        exists|rooms: Seq<Rect>, bends: Seq<bool>| #[trigger]
            laid_out(started.0.grid(), rooms, bends, fresh_player(), views(started.1@), 1),
        started.0.messages@ == seq![(welcome(), red())],
        started.0.inventory@.len() == 0,
        started.0.dungeon_level == 1,
{
    let mut player = GameObject::new(0, 0, '@', "player", white(), true);
    player.alive = true;
    player.fighter = Some(
        Fighter {
            hp: 100,
            base_max_hp: 100,
            base_defense: 1,
            base_power: 4,
            xp: 0,
            on_death: DeathCallback::Player,
        },
    );
    assert(player@ =~= fresh_player());
    let mut objects: Vec<GameObject> = Vec::new();
    objects.push(player);
    assert(objects@[0]@ == fresh_player());
    let game_map = make_map(&mut objects, 1, rng);
    let ghost (rooms, bends) = choose|rooms: Seq<Rect>, bends: Seq<bool>| #[trigger]
        laid_out(tiles(game_map), rooms, bends, fresh_player(), views(objects@), 1);
    assert(laid_out(tiles(game_map), rooms, bends, fresh_player(), views(objects@), 1));
    let mut game = Game { game_map, messages: Messages::new(), inventory: Vec::new(), dungeon_level: 1 };
    game.messages.add(
        "Welcom stranger! Prepare to parish in the Tombs of the Ancient Kinds.",
        red(),
    );
    assert(game.messages@ =~= seq![(welcome(), red())]);
    let started = (game, objects);
    assert(laid_out(started.0.grid(), rooms, bends, fresh_player(), views(started.1@), 1));
    started
}

/// The hit points a rest before the descent restores: half the player's own
/// maximum, rounded toward zero.
pub open spec fn rest(player: ObjectView) -> int {
    match player.fighter {
        Some(f) => half(f.base_max_hp as int),
        None => 0,
    }
}

/// Whether the descent stays within what the numbers can hold: so do the
/// player's hit points with the rest added, and the number of the level.
pub open spec fn descent_fits(w: World, level: u32) -> bool {
    &&& level < u32::MAX
    &&& w.objects[0].fighter matches Some(f) ==> fits_i32(f.hp + rest(w.objects[0])) && fits_i32(
        w.objects[0].max_hp(w.inventory),
    )
}

/// The log after a descent.
pub open spec fn descent_log(log: Log) -> Log {
    log.push(("You take a moment to rest, and recover your strength."@, violet())).push(
        (
            "After a rare moment of peace, you descend deeper into the heart of the dundeon..."@,
            red(),
        ),
    )
}

/// Takes the player, rested, one level down, into a dungeon built anew.
pub fn next_level(game: &mut Game, objects: &mut Vec<GameObject>, rng: &mut StdRng)
    requires
        old(objects)@.len() > 0,
        descent_fits(world(*old(game), old(objects)@), old(game).dungeon_level),
    ensures
        exists|rooms: Seq<Rect>, bends: Seq<bool>| #[trigger]
            laid_out(
                final(game).grid(),
                rooms,
                bends,
                old(objects)@[0]@.healed(
                    rest(old(objects)@[0]@) as i32,
                    old(objects)@[0]@.max_hp(old(game).carried()),
                ),
                views(final(objects)@),
                (old(game).dungeon_level + 1) as u32,
            ),
        final(game).messages@ == descent_log(old(game).messages@),
        final(game).inventory == old(game).inventory,
        final(game).dungeon_level == old(game).dungeon_level + 1,
{
    game.messages.add("You take a moment to rest, and recover your strength.", violet());
    let heal_hp = match objects[PLAYER].fighter {
        Some(f) => f.base_max_hp / 2,
        None => 0,
    };
    assert(heal_hp == rest(objects@[0]@));
    objects[PLAYER].heal(heal_hp, game);
    game.messages.add(
        "After a rare moment of peace, you descend deeper into the heart of the dundeon...",
        red(),
    );
    game.dungeon_level = game.dungeon_level + 1;
    let ghost rested = objects@[0]@;
    game.game_map = make_map(objects, game.dungeon_level, rng);
    proof {
        let (rooms, bends) = choose|rooms: Seq<Rect>, bends: Seq<bool>| #[trigger]
            laid_out(
                tiles(game.game_map),
                rooms,
                bends,
                rested,
                views(objects@),
                game.dungeon_level,
            );
        assert(laid_out(game.grid(), rooms, bends, rested, views(objects@), game.dungeon_level));
    }
}

/// What the player wants to do.
#[derive(Clone, Copy, Debug, PartialEq, Eq)]
pub enum Intent {
    /// Step, or strike what stands in the way.
    Move(i32, i32),
    /// Let the turn pass.
    Wait,
    /// Pick up what lies here.
    PickUp,
    /// Drop the inventory entry of this number.
    Drop(usize),
    /// Use the inventory entry of this number, aimed at this tile if the
    /// player has pointed at one.
    UseItem(usize, Option<(i32, i32)>),
    /// Take the stairs.
    Descend,
    /// Look at the character sheet.
    ShowInfo,
    /// Leave the game.
    Quit,
    /// Nothing the game knows of.
    Nothing,
}

/// For each entity, whether it is an item lying on `(x, y)`.
pub open spec fn items_at(objects: Seq<ObjectView>, x: int, y: int) -> Seq<bool> {
    Seq::new(objects.len(), |i: int| objects[i].x == x && objects[i].y == y && objects[i].item is Some)
}

/// The first item lying on `(x, y)`, if any.
pub fn item_at(objects: &[GameObject], x: i32, y: i32) -> (found: Option<usize>)
    ensures
        match found {
            Some(i) => first_such(items_at(views(objects@), x as int, y as int)) == Some(i as int),
            None => first_such(items_at(views(objects@), x as int, y as int)) is None,
        },
        found matches Some(i) ==> i < objects@.len(),
{
    let ghost hits = items_at(views(objects@), x as int, y as int);
    let mut i: usize = 0;
    while i < objects.len()
        invariant
            i <= objects@.len(),
            hits == items_at(views(objects@), x as int, y as int),
            forall|j: int| 0 <= j < i ==> !hits[j],
        decreases objects@.len() - i,
    {
        if objects[i].x == x && objects[i].y == y && objects[i].item.is_some() {
            proof {
                lemma_first_such_is(hits, Some(i as int));
            }
            return Some(i);
        }
        i += 1;
    }
    proof {
        lemma_first_such_is(hits, None);
    }
    None
}

/// Whether stairs are where the player stands.
pub open spec fn on_stairs(objects: Seq<ObjectView>) -> bool {
    exists|i: int|
        0 <= i < objects.len() && (#[trigger] objects[i]).x == objects[0].x && objects[i].y
            == objects[0].y && objects[i].name == "stairs"@
}

/// Whether stairs are where the player stands.
pub fn player_on_stairs(objects: &[GameObject]) -> (b: bool)
    requires
        objects@.len() > 0,
    ensures
        b == on_stairs(views(objects@)),
{
    let stairs = String::from_str("stairs");
    let mut i: usize = 0;
    while i < objects.len()
        invariant
            i <= objects@.len(),
            objects@.len() > 0,
            stairs@ == "stairs"@,
            forall|j: int|
                0 <= j < i ==> !((#[trigger] views(objects@)[j]).x == objects@[0].x && views(
                    objects@,
                )[j].y == objects@[0].y && views(objects@)[j].name == "stairs"@),
        decreases objects@.len() - i,
    {
        if objects[i].x == objects[PLAYER].x && objects[i].y == objects[PLAYER].y && objects[i].name
            == stairs {
            assert(views(objects@)[i as int].name == "stairs"@);
            return true;
        }
        i += 1;
    }
    false
}

/// Whether carrying out `intent` stays within what the numbers can hold, and
/// does not have the player strike itself.
pub open spec fn intent_fits(intent: Intent, w: World, fov: FovMap, level: u32) -> bool {
    w.objects[0].alive ==> match intent {
        Intent::Move(dx, dy) => match first_such(
            fighters_at(w.objects, w.objects[0].x + dx, w.objects[0].y + dy),
        ) {
            Some(target) => target != 0 && blow_fits(w.objects[0], w.objects[target], w.inventory),
            None => true,
        },
        Intent::UseItem(id, aim) => id < w.inventory.len() ==> (w.inventory[id as int].item matches Some(
            item,
        ) ==> cast_fits(item, w, fov, aim)),
        Intent::Descend => on_stairs(w.objects) ==> descent_fits(w, level),
        _ => true,
    }
}

/// Whether a move of the player by `(dx, dy)` comes off: a fighter stands
/// there to be struck, or nothing is in the way of the step.
pub open spec fn move_comes_off(w: World, tiles: Seq<Seq<Tile>>, dx: int, dy: int) -> bool {
    let x = w.objects[0].x + dx;
    let y = w.objects[0].y + dy;
    ||| first_such(fighters_at(w.objects, x, y)) is Some
    ||| (!blocked_at(tiles, w.objects, x, y) && fits_i32(x) && fits_i32(y))
}

/// What becomes of the player's turn: leaving ends the game; a player who is
/// alive uses up the turn by a move that comes off or by waiting; nothing
/// else does, and a move that fails does not.
pub open spec fn outcome(intent: Intent, w: World, tiles: Seq<Seq<Tile>>) -> PlayerAction {
    match intent {
        Intent::Quit => PlayerAction::Exit,
        Intent::Move(dx, dy) => if w.objects[0].alive && move_comes_off(
            w,
            tiles,
            dx as int,
            dy as int,
        ) {
            PlayerAction::TookTurn
        } else {
            PlayerAction::DidntTakeTurn
        },
        Intent::Wait => if w.objects[0].alive {
            PlayerAction::TookTurn
        } else {
            PlayerAction::DidntTakeTurn
        },
        _ => PlayerAction::DidntTakeTurn,
    }
}

/// Whether a move of the player by `(dx, dy)` comes off.
pub fn move_would_come_off(dx: i32, dy: i32, game: &Game, objects: &[GameObject]) -> (comes_off:
    bool)
    requires
        objects@.len() > 0,
    ensures
        comes_off == move_comes_off(world(*game, objects@), game.grid(), dx as int, dy as int),
{
    let x = objects[PLAYER].x as i64 + dx as i64;
    let y = objects[PLAYER].y as i64 + dy as i64;
    let ghost hits = fighters_at(views(objects@), x as int, y as int);
    if x < i32::MIN as i64 || x > i32::MAX as i64 || y < i32::MIN as i64 || y > i32::MAX as i64 {
        proof {
            lemma_first_such_is(hits, None);
        }
        return false;
    }
    find_fighter_at(objects, x as i32, y as i32).is_some() || !is_blocked(
        x as i32,
        y as i32,
        &game.game_map,
        objects,
    )
}

/// The world after the player's part of a turn, the descent apart: a dead
/// player can do nothing; a live one strikes or steps, picks up the first
/// item lying where it stands, or drops or uses the inventory entry it
/// names, if there is one of that number.
pub open spec fn acted(intent: Intent, w: World, tiles: Seq<Seq<Tile>>, fov: FovMap) -> World {
    if !w.objects[0].alive {
        w
    } else {
        match intent {
            Intent::Move(dx, dy) => match first_such(
                fighters_at(w.objects, w.objects[0].x + dx, w.objects[0].y + dy),
            ) {
                Some(target) => World {
                    objects: fight(w.objects, 0, target, w.inventory),
                    log: fight_log(w.objects, 0, target, w.inventory, w.log),
                    ..w
                },
                None => World { objects: moved(tiles, w.objects, 0, dx as int, dy as int), ..w },
            },
            Intent::PickUp => match first_such(
                items_at(w.objects, w.objects[0].x as int, w.objects[0].y as int),
            ) {
                Some(id) => picked_up(w, id),
                None => w,
            },
            Intent::Drop(id) => if id < w.inventory.len() {
                dropped(w, id as int)
            } else {
                w
            },
            Intent::UseItem(id, aim) => if id < w.inventory.len() {
                used(w, fov, id as int, aim)
            } else {
                w
            },
            _ => w,
        }
    }
}

/// Carries out what the player wants to do.
pub fn player_turn(
    intent: Intent,
    fov: &FovMap,
    game: &mut Game,
    objects: &mut Vec<GameObject>,
    rng: &mut StdRng,
) -> (action: PlayerAction)
    requires
        old(objects)@.len() > 0,
        intent_fits(intent, world(*old(game), old(objects)@), *fov, old(game).dungeon_level),
    ensures
        action == outcome(intent, world(*old(game), old(objects)@), old(game).grid()),
        intent == Intent::Descend && old(objects)@[0].alive && on_stairs(views(old(objects)@)) ==> {
            &&& exists|rooms: Seq<Rect>, bends: Seq<bool>| #[trigger]
                laid_out(
                    final(game).grid(),
                    rooms,
                    bends,
                    old(objects)@[0]@.healed(
                        rest(old(objects)@[0]@) as i32,
                        old(objects)@[0]@.max_hp(old(game).carried()),
                    ),
                    views(final(objects)@),
                    (old(game).dungeon_level + 1) as u32,
                )
            &&& final(game).messages@ == descent_log(old(game).messages@)
            &&& final(game).inventory == old(game).inventory
            &&& final(game).dungeon_level == old(game).dungeon_level + 1
        },
        !(intent == Intent::Descend && old(objects)@[0].alive && on_stairs(views(old(objects)@)))
            ==> {
            &&& world(*final(game), final(objects)@) == acted(
                intent,
                world(*old(game), old(objects)@),
                old(game).grid(),
                *fov,
            )
            &&& final(game).same_place(*old(game))
        },
{
    let ghost before = world(*game, objects@);
    let player_alive = objects[PLAYER].alive;
    match intent {
        Intent::Quit => {
            assert(world(*game, objects@) =~= acted(intent, before, game.grid(), *fov));
            PlayerAction::Exit
        },
        Intent::Move(dx, dy) => {
            if player_alive {
                proof {
                    crate::game_object::lemma_first_such(
                        fighters_at(before.objects, before.objects[0].x + dx, before.objects[0].y + dy),
                    );
                }
                let comes_off = move_would_come_off(dx, dy, game, objects.as_slice());
                player_move_or_attack(dx, dy, game, objects.as_mut_slice());
                assert(world(*game, objects@) =~= acted(intent, before, old(game).grid(), *fov));
                if comes_off {
                    PlayerAction::TookTurn
                } else {
                    PlayerAction::DidntTakeTurn
                }
            } else {
                assert(world(*game, objects@) =~= acted(intent, before, game.grid(), *fov));
                PlayerAction::DidntTakeTurn
            }
        },
        Intent::Wait => {
            assert(world(*game, objects@) =~= acted(intent, before, game.grid(), *fov));
            if player_alive {
                PlayerAction::TookTurn
            } else {
                PlayerAction::DidntTakeTurn
            }
        },
        Intent::PickUp => {
            if player_alive {
                let item_id = item_at(objects.as_slice(), objects[PLAYER].x, objects[PLAYER].y);
                match item_id {
                    Some(item_id) => {
                        pick_item_up(item_id, game, objects);
                    },
                    None => {},
                }
            }
            assert(world(*game, objects@) =~= acted(intent, before, old(game).grid(), *fov));
            PlayerAction::DidntTakeTurn
        },
        Intent::Drop(inventory_index) => {
            if player_alive && inventory_index < game.inventory.len() {
                drop_item(inventory_index, game, objects);
            }
            assert(world(*game, objects@) =~= acted(intent, before, old(game).grid(), *fov));
            PlayerAction::DidntTakeTurn
        },
        Intent::UseItem(inventory_index, aim) => {
            if player_alive && inventory_index < game.inventory.len() {
                use_item(inventory_index, aim, fov, game, objects.as_mut_slice());
            }
            assert(world(*game, objects@) =~= acted(intent, before, old(game).grid(), *fov));
            PlayerAction::DidntTakeTurn
        },
        Intent::Descend => {
            if player_alive && player_on_stairs(objects.as_slice()) {
                next_level(game, objects, rng);
            } else {
                assert(world(*game, objects@) =~= acted(intent, before, old(game).grid(), *fov));
            }
            PlayerAction::DidntTakeTurn
        },
        Intent::ShowInfo => {
            assert(world(*game, objects@) =~= acted(intent, before, game.grid(), *fov));
            PlayerAction::DidntTakeTurn
        },
        Intent::Nothing => {
            assert(world(*game, objects@) =~= acted(intent, before, game.grid(), *fov));
            PlayerAction::DidntTakeTurn
        },
    }
}

/// Ends the player's turn: if the player is alive and has used the turn up,
/// every entity that has a mind of its own has one turn, in the order in
/// which the entities are kept; otherwise nothing happens.
pub fn end_turn(
    action: PlayerAction,
    fov: &FovMap,
    game: &mut Game,
    objects: &mut [GameObject],
    rng: &mut StdRng,
)
    requires
        old(objects)@.len() > 0,
        old(objects)@[0].alive && action == PlayerAction::TookTurn ==> old(objects)@[0].ai is None
            && round_fits(world(*old(game), old(objects)@)),
    ensures
        final(objects)@.len() == old(objects)@.len(),
        if old(objects)@[0].alive && action == PlayerAction::TookTurn {
            &&& exists|stumbles: Seq<(int, int)>|
                steps(stumbles, old(objects)@.len() as int) && world(
                    *final(game),
                    final(objects)@,
                ) == #[trigger] round(
                    world(*old(game), old(objects)@),
                    old(game).grid(),
                    *fov,
                    stumbles,
                    old(objects)@.len() as int,
                )
            &&& round_done(world(*old(game), old(objects)@), world(*final(game), final(objects)@))
        } else {
            world(*final(game), final(objects)@) == world(*old(game), old(objects)@)
        },
        (forall|i: int| 0 < i < old(objects)@.len() ==> (#[trigger] old(objects)@[i]).ai is None)
            ==> world(*final(game), final(objects)@) == world(*old(game), old(objects)@),
        final(game).only_log_differs(*old(game)),
{
    let took_turn = match action {
        PlayerAction::TookTurn => true,
        _ => false,
    };
    if objects[PLAYER].alive && took_turn {
        monsters_turn(fov, game, objects, rng);
    }
}

/// The tiles after the player has looked around: what is in view counts as
/// explored from now on, and what was explored stays so.
pub fn mark_explored(map: &mut Grid, fov: &FovMap)
    ensures
        same_shape(tiles(*old(map)), tiles(*final(map))),
        forall|x: int, y: int|
            on_grid(tiles(*old(map)), x, y) ==> #[trigger] tiles(*final(map))[x][y] == (Tile {
                explored: tiles(*old(map))[x][y].explored || fov.sees(x, y),
                ..tiles(*old(map))[x][y]
            }),
{
    let mut x: usize = 0;
    while x < map.len()
        invariant
            x <= tiles(*map).len(),
            same_shape(tiles(*old(map)), tiles(*map)),
            forall|a: int, b: int|
                on_grid(tiles(*old(map)), a, b) ==> #[trigger] tiles(*map)[a][b] == if a < x {
                    Tile {
                        explored: tiles(*old(map))[a][b].explored || fov.sees(a, b),
                        ..tiles(*old(map))[a][b]
                    }
                } else {
                    tiles(*old(map))[a][b]
                },
        decreases tiles(*map).len() - x,
    {
        let mut y: usize = 0;
        while y < map[x].len()
            invariant
                x < tiles(*map).len(),
                y <= tiles(*map)[x as int].len(),
                same_shape(tiles(*old(map)), tiles(*map)),
                forall|a: int, b: int|
                    on_grid(tiles(*old(map)), a, b) ==> #[trigger] tiles(*map)[a][b] == if a < x || (a
                        == x && b < y) {
                        Tile {
                            explored: tiles(*old(map))[a][b].explored || fov.sees(a, b),
                            ..tiles(*old(map))[a][b]
                        }
                    } else {
                        tiles(*old(map))[a][b]
                    },
            decreases tiles(*map)[x as int].len() - y,
        {
            if fov.shows(x, y) {
                let mut tile = map[x][y];
                tile.explored = true;
                crate::map::set_tile(map, x, y, tile);
            }
            y += 1;
        }
        x += 1;
    }
}

} // verus!
