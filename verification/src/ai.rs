//! What the monsters do when it is their turn.

use crate::dice::roll_range;
use crate::fov::FovMap;
use crate::game::Game;
use crate::game_object::{
    attack_between, blow, blow_fits, fight, fight_log, fits_i32, move_by, move_towards, moved,
    step_toward, views, Ai, GameObject, ObjectView, PLAYER,
};
use crate::inventory::{world, World};
use crate::map::Tile;
use rand::rngs::StdRng;
use vstd::prelude::*;

verus! {

/// Whether the player can still be fought: it has hit points left.
pub open spec fn stands(player: ObjectView) -> bool {
    player.fighter matches Some(f) && f.hp > 0
}

/// Whether entity number `id`, on its turn, strikes the player: it is in
/// view, no further than two tiles from the player, and the player stands.
pub open spec fn strikes(w: World, fov: FovMap, id: int) -> bool {
    let monster = w.objects[id];
    let player = w.objects[0];
    &&& fov.sees(monster.x as int, monster.y as int)
    &&& monster.distance_sq(player.x as int, player.y as int) <= 4
    &&& stands(player)
}

/// The turn of an ordinary monster, number `id`: out of view it does
/// nothing; in view it steps toward the player while it is further than two
/// tiles away, and strikes the player once it is near, if the player stands.
pub open spec fn basic_turn(w: World, tiles: Seq<Seq<Tile>>, fov: FovMap, id: int) -> World {
    let monster = w.objects[id];
    let player = w.objects[0];
    if !fov.sees(monster.x as int, monster.y as int) {
        w
    } else if monster.distance_sq(player.x as int, player.y as int) > 4 {
        let step = step_toward(player.x - monster.x, player.y - monster.y);
        World { objects: moved(tiles, w.objects, id, step.0, step.1), ..w }
    } else if stands(player) {
        World {
            objects: fight(w.objects, id, 0, w.inventory),
            log: fight_log(w.objects, id, 0, w.inventory, w.log),
            ..w
        }
    } else {
        w
    }
}

/// The turn of an ordinary monster.
pub fn ai_basic(monster_id: usize, fov: &FovMap, game: &mut Game, objects: &mut [GameObject]) -> (next:
    Ai)
    requires
        0 < monster_id < old(objects)@.len(),
        strikes(world(*old(game), old(objects)@), *fov, monster_id as int) ==> blow_fits(
            old(objects)@[monster_id as int]@,
            old(objects)@[0]@,
            old(game).carried(),
        ),
    ensures
        world(*final(game), final(objects)@) == basic_turn(
            world(*old(game), old(objects)@),
            old(game).grid(),
            *fov,
            monster_id as int,
        ),
        final(game).only_log_differs(*old(game)),
        next == Ai::Basic,
        final(objects)@.len() == old(objects)@.len(),
{
    let ghost before = world(*game, objects@);
    let (monster_x, monster_y) = objects[monster_id].pos();
    if fov.is_in_fov(monster_x, monster_y) {
        if objects[monster_id].distance_sq_to(&objects[PLAYER]) > 4 {
            let (player_x, player_y) = objects[PLAYER].pos();
            move_towards(monster_id, player_x, player_y, &game.game_map, objects);
        } else {
            let standing = match objects[PLAYER].fighter {
                Some(f) => f.hp > 0,
                None => false,
            };
            if standing {
                attack_between(monster_id, PLAYER, game, objects);
            }
        }
    }
    assert(views(objects@).len() == views(old(objects)@).len());
    assert(world(*game, objects@) =~= basic_turn(before, old(game).grid(), *fov, monster_id as int));
    Ai::Basic
}

/// The turn of a confused monster, number `id`, that stumbles by `(dx, dy)`:
/// while there are turns of confusion left it tries to move that way and
/// uses one of them up; once there are none left it does nothing and comes
/// to its senses.
pub open spec fn confused_turn(
    w: World,
    tiles: Seq<Seq<Tile>>,
    id: int,
    previous_ai: Ai,
    num_turns: i32,
    dx: int,
    dy: int,
) -> (World, Ai) {
    if num_turns >= 0 {
        (
            World { objects: moved(tiles, w.objects, id, dx, dy), ..w },
            Ai::Confused { previous_ai: Box::new(previous_ai), num_turns: (num_turns - 1) as i32 },
        )
    } else {
        (w, previous_ai)
    }
}

/// The turn of a confused monster that stumbles by `(dx, dy)`.
pub fn confused_step(
    monster_id: usize,
    dx: i32,
    dy: i32,
    game: &Game,
    objects: &mut [GameObject],
    previous_ai: Box<Ai>,
    num_turns: i32,
) -> (next: Ai)
    requires
        monster_id < old(objects)@.len(),
    ensures
        views(final(objects)@) == confused_turn(
            world(*game, old(objects)@),
            game.grid(),
            monster_id as int,
            *previous_ai,
            num_turns,
            dx as int,
            dy as int,
        ).0.objects,
        next == confused_turn(
            world(*game, old(objects)@),
            game.grid(),
            monster_id as int,
            *previous_ai,
            num_turns,
            dx as int,
            dy as int,
        ).1,
        final(objects)@.len() == old(objects)@.len(),
{
    if num_turns >= 0 {
        move_by(monster_id, dx, dy, &game.game_map, objects);
        assert(views(objects@).len() == views(old(objects)@).len());
        Ai::Confused { previous_ai, num_turns: num_turns - 1 }
    } else {
        *previous_ai
    }
}

/// The turn of a confused monster: it stumbles one tile, or none, in a
/// direction drawn at random.
pub fn ai_confused(
    monster_id: usize,
    game: &Game,
    objects: &mut [GameObject],
    previous_ai: Box<Ai>,
    num_turns: i32,
    rng: &mut StdRng,
) -> (next: Ai)
    requires
        monster_id < old(objects)@.len(),
    ensures
        exists|dx: int, dy: int|
            -1 <= dx <= 1 && -1 <= dy <= 1 && #[trigger] confused_turn(
                world(*game, old(objects)@),
                game.grid(),
                monster_id as int,
                *previous_ai,
                num_turns,
                dx,
                dy,
            ) == (World { objects: views(final(objects)@), ..world(*game, old(objects)@) }, next),
        num_turns < 0 ==> next == *previous_ai && views(final(objects)@) == views(old(objects)@),
        final(objects)@.len() == old(objects)@.len(),
{
    if num_turns >= 0 {
        let dx = roll_range(rng, -1, 2);
        let dy = roll_range(rng, -1, 2);
        let ghost before = world(*game, objects@);
        let ghost prev = *previous_ai;
        let next = confused_step(monster_id, dx, dy, game, objects, previous_ai, num_turns);
        proof {
            let outcome = confused_turn(
                before,
                game.grid(),
                monster_id as int,
                prev,
                num_turns,
                dx as int,
                dy as int,
            );
            assert(outcome.0 =~= World { objects: views(objects@), ..before });
        }
        next
    } else {
        let ghost before = world(*game, objects@);
        let ghost prev = *previous_ai;
        proof {
            let outcome = confused_turn(before, game.grid(), monster_id as int, prev, num_turns, 0, 0);
            assert(outcome.0 =~= World { objects: views(objects@), ..before });
        }
        *previous_ai
    }
}

/// `object` with its mind set to `ai`.
pub open spec fn minded(object: ObjectView, ai: Option<Ai>) -> ObjectView {
    ObjectView { ai, ..object }
}

/// The turn of entity number `id`, which stumbles by `(dx, dy)` if it is
/// confused. An entity without a mind of its own does nothing. One that has
/// one sets it aside, does what that mind tells it, and takes up the mind it
/// is left with.
pub open spec fn ai_turn(
    w: World,
    tiles: Seq<Seq<Tile>>,
    fov: FovMap,
    id: int,
    dx: int,
    dy: int,
) -> World {
    match w.objects[id].ai {
        None => w,
        Some(ai) => {
            let mindless = World { objects: w.objects.update(id, minded(w.objects[id], None)), ..w };
            let (after, next) = match ai {
                Ai::Basic => (basic_turn(mindless, tiles, fov, id), Ai::Basic),
                Ai::Confused { previous_ai, num_turns } => confused_turn(
                    mindless,
                    tiles,
                    id,
                    *previous_ai,
                    num_turns,
                    dx,
                    dy,
                ),
            };
            World { objects: after.objects.update(id, minded(after.objects[id], Some(next))), ..after }
        },
    }
}

/// Whether the turn of entity number `id` stays within what the numbers can
/// hold: so does its blow, if it is an ordinary monster that strikes.
pub open spec fn ai_turn_fits(w: World, fov: FovMap, id: int) -> bool {
    w.objects[id].ai == Some(Ai::Basic) && strikes(w, fov, id) ==> blow_fits(
        w.objects[id],
        w.objects[0],
        w.inventory,
    )
}

/// Gives entity number `monster_id` its turn.
pub fn ai_take_turn(
    monster_id: usize,
    fov: &FovMap,
    game: &mut Game,
    objects: &mut [GameObject],
    rng: &mut StdRng,
)
    requires
        0 < monster_id < old(objects)@.len(),
        ai_turn_fits(world(*old(game), old(objects)@), *fov, monster_id as int),
    ensures
        final(objects)@.len() == old(objects)@.len(),
        exists|dx: int, dy: int|
            -1 <= dx <= 1 && -1 <= dy <= 1 && world(*final(game), final(objects)@) == #[trigger] ai_turn(
                world(*old(game), old(objects)@),
                old(game).grid(),
                *fov,
                monster_id as int,
                dx,
                dy,
            ),
        final(game).only_log_differs(*old(game)),
        old(objects)@[monster_id as int].ai matches Some(Ai::Confused { previous_ai, num_turns })
            ==> (num_turns < 0 ==> views(final(objects)@) == views(old(objects)@).update(
            monster_id as int,
            minded(old(objects)@[monster_id as int]@, Some(*previous_ai)),
        )),
{
    let ghost before = world(*game, objects@);
    let ghost tiles = game.grid();
    match objects[monster_id].ai.take() {
        Some(ai) => {
            let ghost mindless = world(*game, objects@);
            assert(mindless =~= World {
                objects: before.objects.update(
                    monster_id as int,
                    minded(before.objects[monster_id as int], None),
                ),
                ..before
            });
            let ghost stumble: (int, int);
            let new_ai = match ai {
                Ai::Basic => {
                    proof {
                        stumble = (0, 0);
                        assert(strikes(mindless, *fov, monster_id as int) == strikes(
                            before,
                            *fov,
                            monster_id as int,
                        ));
                    }
                    ai_basic(monster_id, fov, game, objects)
                },
                Ai::Confused { previous_ai, num_turns } => {
                    let ghost prev = *previous_ai;
                    let next = ai_confused(monster_id, game, objects, previous_ai, num_turns, rng);
                    proof {
                        stumble = choose|dx: int, dy: int|
                            -1 <= dx <= 1 && -1 <= dy <= 1 && #[trigger] confused_turn(
                                mindless,
                                tiles,
                                monster_id as int,
                                prev,
                                num_turns,
                                dx,
                                dy,
                            ) == (World { objects: views(objects@), ..mindless }, next);
                    }
                    next
                },
            };
            objects[monster_id].ai = Some(new_ai);
            proof {
                assert(world(*game, objects@) =~= ai_turn(
                    before,
                    tiles,
                    *fov,
                    monster_id as int,
                    stumble.0,
                    stumble.1,
                ));
            }
        },
        None => {
            assert(world(*game, objects@) =~= ai_turn(before, tiles, *fov, monster_id as int, 0, 0));
        },
    }
}

/// A confused monster that has no turn of confusion left comes to its
/// senses on its turn, and does nothing else on it.
pub proof fn lemma_confusion_wears_off(
    w: World,
    tiles: Seq<Seq<Tile>>,
    fov: FovMap,
    id: int,
    previous: Ai,
    num_turns: i32,
    dx: int,
    dy: int,
)
    requires
        0 <= id < w.objects.len(),
        w.objects[id].ai == Some(Ai::Confused { previous_ai: Box::new(previous), num_turns }),
        num_turns < 0,
    ensures
        ai_turn(w, tiles, fov, id, dx, dy) == (World {
            objects: w.objects.update(id, minded(w.objects[id], Some(previous))),
            ..w
        }),
{
    let after = ai_turn(w, tiles, fov, id, dx, dy);
    assert(after.objects =~= w.objects.update(id, minded(w.objects[id], Some(previous))));
}

/// A confused monster with `num_turns` turns of confusion left, none of
/// them negative, stumbles on its turn and is left with one turn less; with
/// none left after that, the turn that follows brings it to its senses.
pub proof fn lemma_confusion_runs_out(
    w: World,
    tiles: Seq<Seq<Tile>>,
    fov: FovMap,
    id: int,
    previous: Ai,
    num_turns: i32,
    dx: int,
    dy: int,
)
    requires
        0 <= id < w.objects.len(),
        w.objects[id].ai == Some(Ai::Confused { previous_ai: Box::new(previous), num_turns }),
        num_turns >= 0,
    ensures
        ({
            let after = ai_turn(w, tiles, fov, id, dx, dy);
            &&& after.objects.len() == w.objects.len()
            &&& after.objects[id].ai == Some(
                Ai::Confused { previous_ai: Box::new(previous), num_turns: (num_turns - 1) as i32 },
            )
            &&& num_turns == 0 ==> forall|ex: int, ey: int| #[trigger]
                ai_turn(after, tiles, fov, id, ex, ey) == (World {
                    objects: after.objects.update(id, minded(after.objects[id], Some(previous))),
                    ..after
                })
        }),
{
    let after = ai_turn(w, tiles, fov, id, dx, dy);
    if num_turns == 0 {
        assert forall|ex: int, ey: int| #[trigger]
            ai_turn(after, tiles, fov, id, ex, ey) == (World {
                objects: after.objects.update(id, minded(after.objects[id], Some(previous))),
                ..after
            }) by {
            lemma_confusion_wears_off(after, tiles, fov, id, previous, -1i32, ex, ey);
        }
    }
}

/// The mind an entity is left with after its turn: an ordinary monster stays
/// what it is; a confused one has a turn of confusion less, or is back to
/// what it was before once none is left.
pub open spec fn next_mind(ai: Option<Ai>) -> Option<Ai> {
    match ai {
        None => None,
        Some(Ai::Basic) => Some(Ai::Basic),
        Some(Ai::Confused { previous_ai, num_turns }) => if num_turns >= 0 {
            Some(Ai::Confused { previous_ai, num_turns: (num_turns - 1) as i32 })
        } else {
            Some(*previous_ai)
        },
    }
}

/// Whether `b` is `a` but for where it stands, what it has in mind and how
/// it fights.
pub open spec fn same_body(a: ObjectView, b: ObjectView) -> bool {
    &&& a.glyph == b.glyph
    &&& a.name == b.name
    &&& a.color == b.color
    &&& a.blocks == b.blocks
    &&& a.alive == b.alive
    &&& a.item == b.item
    &&& a.equipment == b.equipment
    &&& a.always_visible == b.always_visible
    &&& a.level == b.level
}

/// Whether `b` stands no further than one tile from `a`, in each direction.
pub open spec fn one_step(a: ObjectView, b: ObjectView) -> bool {
    -1 <= b.x - a.x <= 1 && -1 <= b.y - a.y <= 1
}

/// Whether `now` is what blows can have made of `initial`: it stands where
/// it stood and carries what it carried, and either it no longer stands, or
/// all that has changed is that it has fewer hit points.
pub open spec fn weakened(initial: ObjectView, now: ObjectView) -> bool {
    &&& now.x == initial.x
    &&& now.y == initial.y
    &&& now.item == initial.item
    &&& now.equipment == initial.equipment
    &&& now.always_visible == initial.always_visible
    &&& now.level == initial.level
    &&& now.ai == initial.ai || now.ai is None
    &&& stands(now) ==> initial.fighter is Some && now == initial.with_hp(now.fighter.unwrap().hp)
        && now.fighter.unwrap().hp <= initial.fighter.unwrap().hp
}

/// Being weakened twice is being weakened.
pub proof fn lemma_weakened_twice(a: ObjectView, b: ObjectView, c: ObjectView)
    requires
        weakened(a, b),
        weakened(b, c),
    ensures
        weakened(a, c),
{
    if stands(c) {
        assert(stands(b));
        assert(c =~= a.with_hp(c.fighter.unwrap().hp));
    }
}

/// What a turn of entity number `id` can change: the entity itself, which
/// moves a step at most; the player, who may be weakened; and the log, which
/// may grow.
pub proof fn lemma_ai_turn(w: World, tiles: Seq<Seq<Tile>>, fov: FovMap, id: int, dx: int, dy: int)
    requires
        0 < id < w.objects.len(),
        -1 <= dx <= 1,
        -1 <= dy <= 1,
        ai_turn_fits(w, fov, id),
    ensures
        ({
            let after = ai_turn(w, tiles, fov, id, dx, dy);
            &&& after.objects.len() == w.objects.len()
            &&& after.inventory == w.inventory
            &&& w.log.is_prefix_of(after.log)
            &&& forall|j: int| 0 < j < w.objects.len() && j != id ==> after.objects[j] == w.objects[j]
            &&& after.objects[id].ai == next_mind(w.objects[id].ai)
            &&& same_body(w.objects[id], after.objects[id])
            &&& one_step(w.objects[id], after.objects[id])
            &&& w.objects[id].ai is None ==> after.objects[id] == w.objects[id]
            &&& weakened(w.objects[0], after.objects[0])
        }),
{
    let after = ai_turn(w, tiles, fov, id, dx, dy);
    match w.objects[id].ai {
        None => {
            assert(w.log.is_prefix_of(w.log));
        },
        Some(ai) => {
            let monster = minded(w.objects[id], None);
            let mindless = World { objects: w.objects.update(id, monster), ..w };
            let player = w.objects[0];
            assert(mindless.objects[0] == player);
            match ai {
                Ai::Basic => {
                    let turned = basic_turn(mindless, tiles, fov, id);
                    if !fov.sees(monster.x as int, monster.y as int) {
                        assert(w.log.is_prefix_of(turned.log));
                    } else if monster.distance_sq(player.x as int, player.y as int) > 4 {
                        assert(w.log.is_prefix_of(turned.log));
                    } else if stands(player) {
                        assert(strikes(w, fov, id));
                        let damage = blow(monster, player, w.inventory);
                        assert(damage == blow(w.objects[id], player, w.inventory));
                        assert(w.log.is_prefix_of(turned.log));
                        if damage > 0 {
                            let hurt = player.damaged(damage as i32);
                            assert(turned.objects[0] == hurt);
                            if player.hp_after(damage as i32) <= 0 {
                                assert(!stands(hurt));
                            } else {
                                assert(hurt =~= player.with_hp(hurt.fighter.unwrap().hp));
                            }
                        }
                    } else {
                        assert(w.log.is_prefix_of(turned.log));
                    }
                },
                Ai::Confused { previous_ai, num_turns } => {
                    let turned = confused_turn(mindless, tiles, id, *previous_ai, num_turns, dx, dy).0;
                    assert(w.log.is_prefix_of(turned.log));
                },
            }
        },
    }
}

/// Whether a blow of `monster` at `player` stays within what the numbers can
/// hold whatever hit points the player has left: the blow fits an `i32`, and
/// so does the monster's experience with the player's added.
pub open spec fn raid_fits(monster: ObjectView, player: ObjectView, inventory: Seq<ObjectView>) -> bool {
    blow(monster, player, inventory) > 0 ==> {
        &&& blow(monster, player, inventory) <= i32::MAX
        &&& monster.fighter is Some
        &&& player.fighter matches Some(p) ==> fits_i32(monster.fighter.unwrap().xp + p.xp)
    }
}

/// Whether a round of the monsters stays within what the numbers can hold:
/// so does the blow of every ordinary monster at the player.
pub open spec fn round_fits(w: World) -> bool {
    forall|i: int|
        0 < i < w.objects.len() && (#[trigger] w.objects[i]).ai == Some(Ai::Basic) ==> raid_fits(
            w.objects[i],
            w.objects[0],
            w.inventory,
        )
}

/// What holds after a round of the monsters, whatever the confused among
/// them stumbled into: every mind has moved on by a turn; whoever has no
/// mind, the player apart, is as before; whoever has one has moved a step at
/// most; the player may be weakened; the log may have grown.
pub open spec fn round_done(before: World, after: World) -> bool {
    &&& after.objects.len() == before.objects.len()
    &&& after.inventory == before.inventory
    &&& before.log.is_prefix_of(after.log)
    &&& weakened(before.objects[0], after.objects[0])
    &&& forall|j: int|
        0 < j < before.objects.len() ==> {
            &&& (#[trigger] after.objects[j]).ai == next_mind(before.objects[j].ai)
            &&& same_body(before.objects[j], after.objects[j])
            &&& one_step(before.objects[j], after.objects[j])
            &&& before.objects[j].ai is None ==> after.objects[j] == before.objects[j]
        }
}

/// The world after the entities numbered 1 to `n - 1` have had their turns,
/// one after the other in that order, each in the world that those before it
/// left. `stumbles` holds, for each entity, the step it stumbles by if it is
/// confused.
pub open spec fn round(
    w: World,
    tiles: Seq<Seq<Tile>>,
    fov: FovMap,
    stumbles: Seq<(int, int)>,
    n: int,
) -> World
    decreases n,
{
    if n <= 1 {
        w
    } else {
        ai_turn(
            round(w, tiles, fov, stumbles, n - 1),
            tiles,
            fov,
            n - 1,
            stumbles[n - 1].0,
            stumbles[n - 1].1,
        )
    }
}

/// Whether `stumbles` holds one step for each of `count` entities, each a
/// tile at most in each direction.
pub open spec fn steps(stumbles: Seq<(int, int)>, count: int) -> bool {
    &&& stumbles.len() == count
    &&& forall|i: int|
        0 <= i < stumbles.len() ==> -1 <= (#[trigger] stumbles[i]).0 <= 1 && -1 <= stumbles[i].1
            <= 1
}

/// A round depends on the steps of the entities that take part in it only.
pub proof fn lemma_round_same(
    w: World,
    tiles: Seq<Seq<Tile>>,
    fov: FovMap,
    a: Seq<(int, int)>,
    b: Seq<(int, int)>,
    n: int,
)
    requires
        forall|i: int| 1 <= i < n ==> a[i] == b[i],
    ensures
        round(w, tiles, fov, a, n) == round(w, tiles, fov, b, n),
    decreases n,
{
    if n > 1 {
        lemma_round_same(w, tiles, fov, a, b, n - 1);
    }
}

/// Where no entity but the player has a mind of its own, a round changes
/// nothing: nobody moves, nobody is struck, and the log stays as it is.
pub proof fn lemma_round_idle(
    w: World,
    tiles: Seq<Seq<Tile>>,
    fov: FovMap,
    stumbles: Seq<(int, int)>,
    n: int,
)
    requires
        n <= w.objects.len(),
        forall|i: int| 1 <= i < n ==> (#[trigger] w.objects[i]).ai is None,
    ensures
        round(w, tiles, fov, stumbles, n) == w,
    decreases n,
{
    if n > 1 {
        lemma_round_idle(w, tiles, fov, stumbles, n - 1);
        assert(w.objects[n - 1].ai is None);
    }
}

/// Gives every entity that has a mind of its own one turn, in the order in
/// which the entities are kept.
pub fn monsters_turn(fov: &FovMap, game: &mut Game, objects: &mut [GameObject], rng: &mut StdRng)
    requires
        old(objects)@.len() > 0,
        old(objects)@[0].ai is None,
        round_fits(world(*old(game), old(objects)@)),
    ensures
        final(objects)@.len() == old(objects)@.len(),
        exists|stumbles: Seq<(int, int)>|
            steps(stumbles, old(objects)@.len() as int) && world(*final(game), final(objects)@)
                == #[trigger] round(
                world(*old(game), old(objects)@),
                old(game).grid(),
                *fov,
                stumbles,
                old(objects)@.len() as int,
            ),
        (forall|i: int| 0 < i < old(objects)@.len() ==> (#[trigger] old(objects)@[i]).ai is None)
            ==> world(*final(game), final(objects)@) == world(*old(game), old(objects)@),
        round_done(world(*old(game), old(objects)@), world(*final(game), final(objects)@)),
        final(game).only_log_differs(*old(game)),
{
    let ghost initial = world(*game, objects@);
    let ghost tiles = game.grid();
    let ghost mut stumbles: Seq<(int, int)> = Seq::new(objects@.len(), |i: int| (0int, 0int));
    proof {
        assert(initial.log.is_prefix_of(initial.log));
    }
    let mut id: usize = 1;
    while id < objects.len()
        invariant
            1 <= id <= objects@.len(),
            objects@.len() == initial.objects.len(),
            initial == world(*old(game), old(objects)@),
            tiles == old(game).grid(),
            initial.objects.len() > 0,
            initial.objects[0].ai is None,
            round_fits(initial),
            game.only_log_differs(*old(game)),
            game.carried() == initial.inventory,
            steps(stumbles, initial.objects.len() as int),
            world(*game, objects@) == round(initial, tiles, *fov, stumbles, id as int),
            initial.log.is_prefix_of(game.messages@),
            weakened(initial.objects[0], objects@[0]@),
            forall|j: int| id <= j < objects@.len() ==> (#[trigger] objects@[j])@ == initial.objects[j],
            forall|j: int|
                0 < j < id && j < objects@.len() ==> {
                    &&& (#[trigger] views(objects@)[j]).ai == next_mind(initial.objects[j].ai)
                    &&& same_body(initial.objects[j], views(objects@)[j])
                    &&& one_step(initial.objects[j], views(objects@)[j])
                    &&& initial.objects[j].ai is None ==> views(objects@)[j] == initial.objects[j]
                },
        decreases objects@.len() - id,
    {
        let ghost now = world(*game, objects@);
        proof {
            assert(now.objects[id as int] == initial.objects[id as int]);
            if now.objects[id as int].ai == Some(Ai::Basic) && strikes(now, *fov, id as int) {
                let monster = now.objects[id as int];
                let player = now.objects[0];
                assert(raid_fits(monster, initial.objects[0], initial.inventory));
                assert(player == initial.objects[0].with_hp(player.fighter.unwrap().hp));
                assert(blow(monster, player, now.inventory) == blow(
                    monster,
                    initial.objects[0],
                    initial.inventory,
                ));
            }
        }
        if objects[id].ai.is_some() {
            ai_take_turn(id, fov, game, objects, rng);
        }
        proof {
            let next = world(*game, objects@);
            let stumble = if now.objects[id as int].ai is Some {
                choose|dx: int, dy: int|
                    -1 <= dx <= 1 && -1 <= dy <= 1 && next == #[trigger] ai_turn(
                        now,
                        tiles,
                        *fov,
                        id as int,
                        dx,
                        dy,
                    )
            } else {
                (0, 0)
            };
            assert(next =~= ai_turn(now, tiles, *fov, id as int, stumble.0, stumble.1));
            let drawn = stumbles.update(id as int, stumble);
            lemma_round_same(initial, tiles, *fov, stumbles, drawn, id as int);
            assert(drawn[id as int] == stumble);
            assert(next == round(initial, tiles, *fov, drawn, id + 1));
            stumbles = drawn;
            lemma_ai_turn(now, tiles, *fov, id as int, stumble.0, stumble.1);
            lemma_weakened_twice(initial.objects[0], now.objects[0], next.objects[0]);
            assert forall|j: int| id + 1 <= j < objects@.len() implies (#[trigger] objects@[j])@
                == initial.objects[j] by {
                assert(next.objects[j] == now.objects[j]);
            }
            assert forall|j: int| 0 < j < id + 1 && j < objects@.len() implies {
                &&& (#[trigger] views(objects@)[j]).ai == next_mind(initial.objects[j].ai)
                &&& same_body(initial.objects[j], views(objects@)[j])
                &&& one_step(initial.objects[j], views(objects@)[j])
                &&& initial.objects[j].ai is None ==> views(objects@)[j] == initial.objects[j]
            } by {
                if j < id {
                    assert(next.objects[j] == now.objects[j]);
                }
            }
        }
        id += 1;
    }
    proof {
        let done = world(*game, objects@);
        assert(done == round(initial, tiles, *fov, stumbles, initial.objects.len() as int));
        if forall|i: int| 0 < i < old(objects)@.len() ==> (#[trigger] old(objects)@[i]).ai is None {
            assert forall|i: int| 1 <= i < initial.objects.len() implies (
            #[trigger] initial.objects[i]).ai is None by {
                assert(old(objects)@[i].ai is None);
            }
            lemma_round_idle(initial, tiles, *fov, stumbles, initial.objects.len() as int);
        }
        assert forall|j: int| 0 < j < initial.objects.len() implies {
            &&& (#[trigger] done.objects[j]).ai == next_mind(initial.objects[j].ai)
            &&& same_body(initial.objects[j], done.objects[j])
            &&& one_step(initial.objects[j], done.objects[j])
            &&& initial.objects[j].ai is None ==> done.objects[j] == initial.objects[j]
        } by {
            assert(done.objects[j] == views(objects@)[j]);
        }
    }
}

} // verus!
