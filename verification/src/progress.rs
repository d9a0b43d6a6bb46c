//! Experience and levels.

use crate::colors::yellow;
use crate::game::Game;
use crate::game_object::{
    fits_i32, views, Fighter, GameObject, ObjectView, LEVEL_UP_BASE, LEVEL_UP_FACTOR, PLAYER,
};
use crate::text::{decimal, int_to_string, join3};
use vstd::prelude::*;

verus! {

/// The experience that the step up from `level` costs.
pub open spec fn level_up_xp(level: i32) -> int {
    LEVEL_UP_BASE + level * LEVEL_UP_FACTOR
}

/// The experience an entity has gathered; none without a fighter component.
pub open spec fn experience(object: ObjectView) -> int {
    match object.fighter {
        Some(f) => f.xp as int,
        None => 0,
    }
}

/// Whether `player` has gathered the experience that its next level costs.
pub open spec fn level_up_due(player: ObjectView) -> bool {
    experience(player) >= level_up_xp(player.level)
}

/// What the choice numbered `choice` raises: 0 the hit points, by 20, the
/// current ones with the most there can be; 1 the power, by 1; any other the
/// defense, by 1.
pub open spec fn raised(f: Fighter, choice: int) -> Fighter {
    if choice == 0 {
        Fighter { base_max_hp: (f.base_max_hp + 20) as i32, hp: (f.hp + 20) as i32, ..f }
    } else if choice == 1 {
        Fighter { base_power: (f.base_power + 1) as i32, ..f }
    } else {
        Fighter { base_defense: (f.base_defense + 1) as i32, ..f }
    }
}

/// The player one level up: the level's cost taken off the experience, what
/// is left of it kept, and the chosen stat raised.
pub open spec fn leveled(player: ObjectView, choice: int) -> ObjectView {
    let f = player.fighter.unwrap();
    ObjectView {
        level: (player.level + 1) as i32,
        fighter: Some(
            raised(Fighter { xp: (f.xp - level_up_xp(player.level)) as i32, ..f }, choice),
        ),
        ..player
    }
}

/// Whether the step up stays within what the numbers can hold. The player
/// needs a fighter component to be raised.
pub open spec fn level_up_fits(player: ObjectView, choice: int) -> bool {
    &&& player.fighter is Some
    &&& fits_i32(player.level + 1)
    &&& fits_i32(player.fighter.unwrap().xp - level_up_xp(player.level))
    &&& choice == 0 ==> fits_i32(player.fighter.unwrap().base_max_hp + 20) && fits_i32(
        player.fighter.unwrap().hp + 20,
    )
    &&& choice == 1 ==> fits_i32(player.fighter.unwrap().base_power + 1)
    &&& choice == 2 ==> fits_i32(player.fighter.unwrap().base_defense + 1)
}

/// What the log says of a step up to `level`.
pub open spec fn level_up_notice(level: int) -> Seq<char> {
    "Your battle skills grow stronger!  You reached level "@ + decimal(level) + "!"@
}

/// A step up takes exactly the level's cost off the experience: what the
/// player had beyond it is kept, and there was enough to pay. This holds
/// for every fighter whose step up is due, whatever is raised and however
/// large the stats are, as long as what is left of the experience fits an
/// `i32`; from level -1 on, and levels count from 1, it always does.
pub proof fn lemma_level_up_surplus(player: ObjectView, choice: int)
    requires
        level_up_due(player),
        player.fighter is Some,
        player.level >= -1 || fits_i32(experience(player) - level_up_xp(player.level)),
    ensures
        experience(leveled(player, choice)) == experience(player) - level_up_xp(player.level),
        experience(player) >= level_up_xp(player.level),
        experience(leveled(player, choice)) >= 0,
{
}

/// The part of a level's cost that grows with the level.
fn level_cost(level: i32) -> (cost: i64)
    ensures
        cost == level * LEVEL_UP_FACTOR,
{
    assert(-0x8000_0000 * 150 <= level * LEVEL_UP_FACTOR <= 0x8000_0000 * 150) by (nonlinear_arith)
        requires
            -0x8000_0000 <= level <= 0x8000_0000,
            LEVEL_UP_FACTOR == 150,
    ;
    level as i64 * LEVEL_UP_FACTOR as i64
}

/// Whether the player has gathered the experience that the next level costs.
pub fn level_up_available(objects: &[GameObject]) -> (due: bool)
    requires
        objects@.len() > 0,
    ensures
        due == level_up_due(objects@[0]@),
{
    let player = &objects[PLAYER];
    let level_up_xp = LEVEL_UP_BASE as i64 + level_cost(player.level);
    let xp: i64 = match player.fighter {
        Some(f) => f.xp as i64,
        None => 0,
    };
    xp >= level_up_xp
}

/// Takes the player one level up, if the experience for it is there, and
/// raises the stat that the player chose: 0 for hit points, 1 for power, 2
/// for defense.
pub fn level_up(choice: usize, game: &mut Game, objects: &mut [GameObject])
    requires
        old(objects)@.len() > 0,
        choice < 3,
        level_up_due(old(objects)@[0]@) ==> level_up_fits(old(objects)@[0]@, choice as int),
    ensures
        final(objects)@.len() == old(objects)@.len(),
        views(final(objects)@) == if level_up_due(old(objects)@[0]@) {
            views(old(objects)@).update(0, leveled(old(objects)@[0]@, choice as int))
        } else {
            views(old(objects)@)
        },
        final(game).messages@ == if level_up_due(old(objects)@[0]@) {
            old(game).messages@.push((level_up_notice(old(objects)@[0].level + 1), yellow()))
        } else {
            old(game).messages@
        },
        final(game).only_log_differs(*old(game)),
        level_up_due(old(objects)@[0]@) ==> experience(final(objects)@[0]@) == experience(
            old(objects)@[0]@,
        ) - level_up_xp(old(objects)@[0].level) && experience(old(objects)@[0]@) >= level_up_xp(
            old(objects)@[0].level,
        ),
{
    if level_up_available(objects) {
        let level_up_xp = LEVEL_UP_BASE as i64 + level_cost(objects[PLAYER].level);
        objects[PLAYER].level = objects[PLAYER].level + 1;
        let number = int_to_string(objects[PLAYER].level as i64);
        let notice = join3(
            "Your battle skills grow stronger!  You reached level ",
            number.as_str(),
            "!",
        );
        game.messages.add(notice.as_str(), yellow());
        match objects[PLAYER].fighter {
            Some(before) => {
                let mut fighter = before;
                fighter.xp = (fighter.xp as i64 - level_up_xp) as i32;
                if choice == 0 {
                    fighter.base_max_hp = fighter.base_max_hp + 20;
                    fighter.hp = fighter.hp + 20;
                } else if choice == 1 {
                    fighter.base_power = fighter.base_power + 1;
                } else {
                    fighter.base_defense = fighter.base_defense + 1;
                }
                objects[PLAYER].fighter = Some(fighter);
            },
            None => {},
        }
        assert(views(objects@) =~= views(old(objects)@).update(
            0,
            leveled(old(objects)@[0]@, choice as int),
        ));
    }
}

} // verus!
