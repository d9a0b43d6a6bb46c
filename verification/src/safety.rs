//! Checks, to be made before a call, that the call stays within what the
//! numbers can hold.

use crate::ai::{raid_fits, round_fits};
use crate::fov::FovMap;
use crate::game::{descent_fits, intent_fits, player_on_stairs, rest, Game, Intent};
use crate::game_object::{
    blow_fits, fighters_at, find_fighter_at, lemma_first_such, lemma_first_such_is,
    views, Ai, GameObject, Item, FIREBALL_DAMAGE, FIREBALL_RADIUS, HEAL_AMOUNT, LIGHTNING_DAMAGE,
    LIGHTNING_RANGE, PLAYER,
};
use crate::inventory::{
    burn, cast_fits, fireball_fits, heal_fits, lemma_burn_frame, lightning_fits, scorched, world,
};
use crate::progress::{level_up_available, level_up_due, level_up_fits};
use crate::targeting::closest_monster;
use vstd::prelude::*;

verus! {

/// Whether `v` fits an `i32`.
fn fits(v: i128) -> (b: bool)
    ensures
        b == (i32::MIN <= v <= i32::MAX),
{
    -0x8000_0000 <= v && v <= 0x7fff_ffff
}

/// Whether a blow of `attacker` at `target` stays within what the numbers
/// can hold.
pub fn blow_is_safe(attacker: &GameObject, target: &GameObject, game: &Game) -> (safe: bool)
    ensures
        safe == blow_fits(attacker@, target@, game.carried()),
{
    let damage = attacker.power_wide(game) - target.defense_wide(game);
    if damage <= 0 {
        return true;
    }
    if damage > i32::MAX as i128 {
        return false;
    }
    match target.fighter {
        None => true,
        Some(victim) => {
            let left = victim.hp as i128 - damage;
            if !fits(left) {
                return false;
            }
            if left <= 0 && target.alive {
                match attacker.fighter {
                    Some(f) => fits(f.xp as i128 + victim.xp as i128),
                    None => false,
                }
            } else {
                true
            }
        },
    }
}

/// Whether a blow of `monster` at `player` stays within what the numbers can
/// hold whatever hit points the player has left.
pub fn raid_is_safe(monster: &GameObject, player: &GameObject, game: &Game) -> (safe: bool)
    ensures
        safe == raid_fits(monster@, player@, game.carried()),
{
    let damage = monster.power_wide(game) - player.defense_wide(game);
    if damage <= 0 {
        return true;
    }
    if damage > i32::MAX as i128 {
        return false;
    }
    match monster.fighter {
        None => false,
        Some(f) => match player.fighter {
            Some(p) => fits(f.xp as i128 + p.xp as i128),
            None => true,
        },
    }
}

/// Whether the monsters can have their round: there is a player, it has no
/// mind of a monster, and every blow stays within what the numbers can hold.
pub fn round_is_safe(game: &Game, objects: &[GameObject]) -> (safe: bool)
    ensures
        safe == (objects@.len() > 0 && objects@[0].ai is None && round_fits(
            world(*game, objects@),
        )),
{
    if objects.len() == 0 {
        return false;
    }
    if objects[PLAYER].ai.is_some() {
        return false;
    }
    let mut i: usize = 1;
    while i < objects.len()
        invariant
            1 <= i,
            objects@.len() > 0,
            forall|j: int|
                0 < j < i && j < objects@.len() && (#[trigger] world(*game, objects@).objects[j]).ai
                    == Some(Ai::Basic) ==> raid_fits(
                    world(*game, objects@).objects[j],
                    world(*game, objects@).objects[0],
                    world(*game, objects@).inventory,
                ),
        decreases objects@.len() - i,
    {
        let ordinary = match &objects[i].ai {
            Some(Ai::Basic) => true,
            _ => false,
        };
        if ordinary && !raid_is_safe(&objects[i], &objects[PLAYER], game) {
            assert(world(*game, objects@).objects[i as int].ai == Some(Ai::Basic));
            return false;
        }
        i += 1;
    }
    true
}

/// Whether a healing potion can be drunk within what the numbers can hold.
pub fn heal_is_safe(game: &Game, objects: &[GameObject]) -> (safe: bool)
    requires
        objects@.len() > 0,
    ensures
        safe == heal_fits(world(*game, objects@)),
{
    match objects[PLAYER].fighter {
        Some(f) => {
            let full = objects[PLAYER].max_hp_wide(game);
            f.hp as i128 == full || (fits(f.hp as i128 + HEAL_AMOUNT as i128) && fits(full))
        },
        None => true,
    }
}

/// Whether a scroll of lightning bolt can be read within what the numbers
/// can hold.
pub fn lightning_is_safe(fov: &FovMap, game: &Game, objects: &[GameObject]) -> (safe: bool)
    ensures
        safe == lightning_fits(world(*game, objects@), *fov),
{
    match closest_monster(fov, objects, LIGHTNING_RANGE) {
        None => true,
        Some(m) => {
            proof {
                crate::targeting::lemma_closest(
                    views(objects@),
                    *fov,
                    LIGHTNING_RANGE as int,
                    objects@.len() as int,
                );
            }
            match objects[m].fighter {
                None => true,
                Some(monster) => {
                    let left = monster.hp as i128 - LIGHTNING_DAMAGE as i128;
                    if !fits(left) {
                        return false;
                    }
                    if left <= 0 && objects[m].alive {
                        match objects[PLAYER].fighter {
                            Some(f) => fits(f.xp as i128 + monster.xp as i128),
                            None => false,
                        }
                    } else {
                        true
                    }
                },
            }
        },
    }
}

/// Whether a scroll of fireball, aimed at `aim`, can be read within what the
/// numbers can hold.
pub fn fireball_is_safe(aim: Option<(i32, i32)>, game: &Game, objects: &[GameObject]) -> (safe: bool)
    ensures
        safe == fireball_fits(world(*game, objects@), aim),
{
    let (x, y) = match aim {
        Some(tile) => tile,
        None => {
            return true;
        },
    };
    let ghost w = world(*game, objects@);
    if objects.len() == 0 {
        return false;
    }
    let mut gathered: i128 = 0;
    let mut i: usize = 0;
    while i < objects.len()
        invariant
            i <= objects@.len(),
            w == world(*game, objects@),
            aim == Some((x, y)),
            gathered == burn(w.objects, w.log, x as int, y as int, i as int).xp,
            -0x8000_0000 * i <= gathered <= 0x8000_0000 * i,
            forall|j: int|
                0 <= j < i && scorched(#[trigger] w.objects[j], x as int, y as int) ==> crate::game_object::fits_i32(
                    w.objects[j].hp_after(FIREBALL_DAMAGE),
                ),
        decreases objects@.len() - i,
    {
        if objects[i].distance_sq(x, y) <= (FIREBALL_RADIUS * FIREBALL_RADIUS) as i128 {
            match objects[i].fighter {
                Some(f) => {
                    let left = f.hp as i128 - FIREBALL_DAMAGE as i128;
                    if !fits(left) {
                        assert(scorched(w.objects[i as int], x as int, y as int));
                        assert(!crate::game_object::fits_i32(
                            w.objects[i as int].hp_after(FIREBALL_DAMAGE),
                        ));
                        return false;
                    }
                    if left <= 0 && i != PLAYER && objects[i].alive {
                        gathered = gathered + f.xp as i128;
                    }
                },
                None => {},
            }
        }
        i += 1;
    }
    proof {
        lemma_burn_frame(w.objects, w.log, x as int, y as int, objects@.len() as int);
    }
    let player = &objects[PLAYER];
    match player.fighter {
        None => false,
        Some(f) => {
            let burnt = player.distance_sq(x, y) <= (FIREBALL_RADIUS * FIREBALL_RADIUS) as i128;
            let dies = burnt && player.alive && f.hp as i128 - FIREBALL_DAMAGE as i128 <= 0;
            let gone = dies && match f.on_death {
                crate::game_object::DeathCallback::Monster => true,
                crate::game_object::DeathCallback::Player => false,
            };
            if gone {
                false
            } else {
                fits(f.xp as i128 + gathered)
            }
        },
    }
}

/// Whether `item` can be used within what the numbers can hold.
pub fn cast_is_safe(
    item: Item,
    aim: Option<(i32, i32)>,
    fov: &FovMap,
    game: &Game,
    objects: &[GameObject],
) -> (safe: bool)
    ensures
        safe == cast_fits(item, world(*game, objects@), *fov, aim),
{
    match item {
        Item::Heal => objects.len() > 0 && heal_is_safe(game, objects),
        Item::Lightning => lightning_is_safe(fov, game, objects),
        Item::Fireball => fireball_is_safe(aim, game, objects),
        _ => true,
    }
}

/// Whether the player can go down a level within what the numbers can hold.
pub fn descent_is_safe(game: &Game, objects: &[GameObject]) -> (safe: bool)
    requires
        objects@.len() > 0,
    ensures
        safe == descent_fits(world(*game, objects@), game.dungeon_level),
{
    if game.dungeon_level == u32::MAX {
        return false;
    }
    match objects[PLAYER].fighter {
        Some(f) => {
            let heal_hp = f.base_max_hp / 2;
            assert(heal_hp == rest(objects@[0]@));
            fits(f.hp as i128 + heal_hp as i128) && fits(objects[PLAYER].max_hp_wide(game))
        },
        None => true,
    }
}

/// Whether the player can be taken a level up, if that is due, within what
/// the numbers can hold.
pub fn level_up_is_safe(choice: usize, objects: &[GameObject]) -> (safe: bool)
    requires
        objects@.len() > 0,
    ensures
        safe == (level_up_due(objects@[0]@) ==> level_up_fits(objects@[0]@, choice as int)),
{
    if !level_up_available(objects) {
        return true;
    }
    let player = &objects[PLAYER];
    match player.fighter {
        None => false,
        Some(f) => {
            assert(-0x8000_0000 * 150 <= player.level * crate::game_object::LEVEL_UP_FACTOR
                <= 0x8000_0000 * 150) by (nonlinear_arith)
                requires
                    -0x8000_0000 <= player.level <= 0x8000_0000,
                    crate::game_object::LEVEL_UP_FACTOR == 150,
            ;
            let cost = crate::game_object::LEVEL_UP_BASE as i128 + player.level as i128
                * crate::game_object::LEVEL_UP_FACTOR as i128;
            fits(player.level as i128 + 1) && fits(f.xp as i128 - cost) && (choice != 0 || (fits(
                f.base_max_hp as i128 + 20,
            ) && fits(f.hp as i128 + 20))) && (choice != 1 || fits(f.base_power as i128 + 1))
                && (choice != 2 || fits(f.base_defense as i128 + 1))
        },
    }
}

/// Whether what the player wants to do can be carried out: there is a
/// player, it would not strike itself, and all stays within what the numbers
/// can hold.
pub fn intent_is_safe(intent: Intent, fov: &FovMap, game: &Game, objects: &[GameObject]) -> (safe:
    bool)
    ensures
        safe == (objects@.len() > 0 && intent_fits(
            intent,
            world(*game, objects@),
            *fov,
            game.dungeon_level,
        )),
{
    if objects.len() == 0 {
        return false;
    }
    if !objects[PLAYER].alive {
        return true;
    }
    match intent {
        Intent::Move(dx, dy) => {
            let x = objects[PLAYER].x as i64 + dx as i64;
            let y = objects[PLAYER].y as i64 + dy as i64;
            let ghost hits = fighters_at(views(objects@), x as int, y as int);
            if x < i32::MIN as i64 || x > i32::MAX as i64 || y < i32::MIN as i64 || y
                > i32::MAX as i64 {
                proof {
                    lemma_first_such_is(hits, None);
                }
                return true;
            }
            proof {
                lemma_first_such(hits);
            }
            match find_fighter_at(objects, x as i32, y as i32) {
                Some(target) => target != PLAYER && blow_is_safe(
                    &objects[PLAYER],
                    &objects[target],
                    game,
                ),
                None => true,
            }
        },
        Intent::UseItem(id, aim) => {
            if id < game.inventory.len() {
                match game.inventory[id].item {
                    Some(item) => cast_is_safe(item, aim, fov, game, objects),
                    None => true,
                }
            } else {
                true
            }
        },
        Intent::Descend => {
            if player_on_stairs(objects) {
                descent_is_safe(game, objects)
            } else {
                true
            }
        },
        _ => true,
    }
}

} // verus!
