//! What the player carries: picking up, dropping, wearing and using it.

use crate::colors::{green, light_blue, light_cyan, light_green, light_violet, orange, red, white, yellow};
use crate::equipment::{get_equipped_in_slot, orderly, worn_at, worn_flags, worn_in, Slot};
use crate::fov::FovMap;
use crate::game::{Game, Log};
use crate::game_object::{
    first_such, fits_i32, lemma_first_such, views, Ai, GameObject, Item, ObjectView,
    CONFUSE_NUM_TURNS, FIREBALL_DAMAGE, FIREBALL_RADIUS, HEAL_AMOUNT, LIGHTNING_DAMAGE,
    LIGHTNING_RANGE, PLAYER,
};
use crate::targeting::{closest, closest_monster, monster_at, monsters_at};
use crate::text::{decimal, int_to_string, join3, join5};
use vstd::prelude::*;

verus! {

/// How many things the player can carry.
pub const INVENTORY_SIZE: usize = 26;

/// What became of an item that was used.
#[derive(Clone, Copy, Debug, PartialEq, Eq, Structural)]
pub enum UseResult {
    UsedUp,
    UsedAndKept,
    Cancelled,
}

/// The part of the world that items act on, as the contracts see it.
#[verifier::ext_equal]
pub struct World {
    pub objects: Seq<ObjectView>,
    pub inventory: Seq<ObjectView>,
    pub log: Log,
}

/// The world that `game` and `objects` make up.
pub open spec fn world(game: Game, objects: Seq<GameObject>) -> World {
    World { objects: views(objects), inventory: game.carried(), log: game.messages@ }
}

/// Whether a worn piece of `inventory` takes up `slot`.
pub open spec fn slot_taken(inventory: Seq<ObjectView>, slot: Slot) -> bool {
    exists|j: int| 0 <= j < inventory.len() && worn_in(#[trigger] inventory[j], slot)
}

/// Whether `item`, added to `inventory`, is put on at once: it is a piece of
/// equipment, and its slot is free.
pub open spec fn worn_at_once(item: ObjectView, inventory: Seq<ObjectView>) -> bool {
    item.equipment matches Some(e) && !slot_taken(inventory.push(item), e.slot)
}

/// The world after entity number `id` was picked up: with a full inventory
/// only a complaint in the log; else the entity gone from the level, the
/// last entity in its place, and added to the inventory, put on at once
/// where that applies.
pub open spec fn picked_up(w: World, id: int) -> World {
    let item = w.objects[id];
    if w.inventory.len() >= INVENTORY_SIZE {
        World {
            log: w.log.push(
                ("Your inventory is full, cannot pick up "@ + item.name + "."@, red()),
            ),
            ..w
        }
    } else {
        let said = w.log.push(("You picked up a "@ + item.name + "!"@, green()));
        World {
            objects: w.objects.update(id, w.objects.last()).drop_last(),
            inventory: w.inventory.push(
                if worn_at_once(item, w.inventory) {
                    item.put_on()
                } else {
                    item
                },
            ),
            log: if worn_at_once(item, w.inventory) {
                item.put_on_log(said)
            } else {
                said
            },
        }
    }
}

/// Moves entity number `object_id` from the level into the inventory.
pub fn pick_item_up(object_id: usize, game: &mut Game, objects: &mut Vec<GameObject>)
    requires
        object_id < old(objects)@.len(),
    ensures
        world(*final(game), final(objects)@) == picked_up(
            world(*old(game), old(objects)@),
            object_id as int,
        ),
        final(game).same_place(*old(game)),
        orderly(old(game).carried()) && !(old(objects)@[object_id as int].equipment matches Some(e)
            && e.equipped) ==> orderly(final(game).carried()),
{
    let ghost before = world(*game, objects@);
    if game.inventory.len() >= INVENTORY_SIZE {
        let notice = join3(
            "Your inventory is full, cannot pick up ",
            objects[object_id].name.as_str(),
            ".",
        );
        game.messages.add(notice.as_str(), red());
        assert(world(*game, objects@) =~= picked_up(before, object_id as int));
    } else {
        let item = objects.swap_remove(object_id);
        let notice = join3("You picked up a ", item.name.as_str(), "!");
        game.messages.add(notice.as_str(), green());
        let index = game.inventory.len();
        let slot = match item.equipment {
            Some(e) => Some(e.slot),
            None => None,
        };
        let ghost picked = item@;
        game.inventory.push(item);
        assert(game.carried() =~= before.inventory.push(picked));
        match slot {
            Some(slot) => {
                if get_equipped_in_slot(slot, game.inventory.as_slice()).is_none() {
                    game.inventory[index].equip(&mut game.messages);
                    assert(!slot_taken(before.inventory.push(picked), slot));
                } else {
                    let ghost found = worn_at(before.inventory.push(picked), slot).unwrap();
                    proof {
                        lemma_first_such(worn_flags(before.inventory.push(picked), slot));
                    }
                    assert(worn_in(before.inventory.push(picked)[found], slot));
                }
            },
            None => {},
        }
        assert(world(*game, objects@) =~= picked_up(before, object_id as int));
        proof {
            if orderly(before.inventory) && !(picked.equipment matches Some(e) && e.equipped) {
                let after = game.carried();
                assert forall|k: int|
                    0 <= k < after.len() && ((#[trigger] after[k]).equipment matches Some(e)
                        && e.equipped) implies after[k].item is Some by {
                    if k < before.inventory.len() {
                        assert(after[k] == before.inventory[k]);
                    }
                }
                assert forall|i: int, j: int, s: Slot|
                    0 <= i < j < after.len() && worn_in(after[i], s) implies !worn_in(
                    after[j],
                    s,
                ) by {
                    if j < before.inventory.len() {
                        assert(after[i] == before.inventory[i]);
                        assert(after[j] == before.inventory[j]);
                    } else {
                        assert(after[i] == before.inventory[i]);
                        assert(before.inventory.push(picked)[i] == before.inventory[i]);
                    }
                }
            }
        }
    }
}

/// The world after inventory entry number `id` was dropped: the entry gone
/// from the inventory, taken off if it is a piece of equipment, and lying
/// where the player stands.
pub open spec fn dropped(w: World, id: int) -> World {
    let item = w.inventory[id];
    let laid_off = if item.equipment is Some {
        item.taken_off()
    } else {
        item
    };
    let said = if item.equipment is Some {
        item.taken_off_log(w.log)
    } else {
        w.log
    };
    World {
        objects: w.objects.push(ObjectView { x: w.objects[0].x, y: w.objects[0].y, ..laid_off }),
        inventory: w.inventory.remove(id),
        log: said.push(("You dropped a "@ + item.name + "."@, yellow())),
    }
}

/// Removing an entry leaves the inventory in order.
pub proof fn lemma_remove_keeps_order(inventory: Seq<ObjectView>, id: int)
    requires
        0 <= id < inventory.len(),
        orderly(inventory),
    ensures
        orderly(inventory.remove(id)),
{
    let after = inventory.remove(id);
    assert forall|k: int|
        0 <= k < after.len() && ((#[trigger] after[k]).equipment matches Some(e)
            && e.equipped) implies after[k].item is Some by {
        let a = if k < id {
            k
        } else {
            k + 1
        };
        assert(after[k] == inventory[a]);
    }
    assert forall|i: int, j: int, s: Slot|
        0 <= i < j < after.len() && worn_in(after[i], s) implies !worn_in(after[j], s) by {
        let a = if i < id {
            i
        } else {
            i + 1
        };
        let b = if j < id {
            j
        } else {
            j + 1
        };
        assert(after[i] == inventory[a]);
        assert(after[j] == inventory[b]);
    }
}

/// Moves inventory entry number `inventory_id` onto the tile the player
/// stands on.
pub fn drop_item(inventory_id: usize, game: &mut Game, objects: &mut Vec<GameObject>)
    requires
        inventory_id < old(game).inventory@.len(),
        old(objects)@.len() > 0,
    ensures
        world(*final(game), final(objects)@) == dropped(
            world(*old(game), old(objects)@),
            inventory_id as int,
        ),
        final(game).same_place(*old(game)),
        orderly(old(game).carried()) ==> orderly(final(game).carried()),
{
    let ghost before = world(*game, objects@);
    let mut item = game.inventory.remove(inventory_id);
    if item.equipment.is_some() {
        item.dequip(&mut game.messages);
    }
    item.set_pos(objects[PLAYER].x, objects[PLAYER].y);
    let notice = join3("You dropped a ", item.name.as_str(), ".");
    game.messages.add(notice.as_str(), yellow());
    objects.push(item);
    assert(game.carried() =~= before.inventory.remove(inventory_id as int));
    assert(world(*game, objects@) =~= dropped(before, inventory_id as int));
    proof {
        if orderly(before.inventory) {
            lemma_remove_keeps_order(before.inventory, inventory_id as int);
        }
    }
}

/// The inventory after entry number `id` was put on or taken off: a worn
/// piece is taken off; one that is not worn is put on, after the piece that
/// was worn in its slot has been taken off.
pub open spec fn toggled(inventory: Seq<ObjectView>, id: int) -> Seq<ObjectView> {
    match inventory[id].equipment {
        None => inventory,
        Some(e) => if e.equipped {
            inventory.update(id, inventory[id].taken_off())
        } else {
            let cleared = match worn_at(inventory, e.slot) {
                Some(current) => inventory.update(current, inventory[current].taken_off()),
                None => inventory,
            };
            cleared.update(id, cleared[id].put_on())
        },
    }
}

/// The log after inventory entry number `id` was put on or taken off.
pub open spec fn toggled_log(inventory: Seq<ObjectView>, id: int, log: Log) -> Log {
    match inventory[id].equipment {
        None => log,
        Some(e) => if e.equipped {
            inventory[id].taken_off_log(log)
        } else {
            let said = match worn_at(inventory, e.slot) {
                Some(current) => inventory[current].taken_off_log(log),
                None => log,
            };
            inventory[id].put_on_log(said)
        },
    }
}

/// Putting a piece on or taking it off leaves the inventory in order.
pub proof fn lemma_toggle_keeps_order(inventory: Seq<ObjectView>, id: int)
    requires
        0 <= id < inventory.len(),
        orderly(inventory),
    ensures
        orderly(toggled(inventory, id)),
{
    let after = toggled(inventory, id);
    match inventory[id].equipment {
        None => {},
        Some(e) => {
            lemma_first_such(worn_flags(inventory, e.slot));
            // apart from the toggled piece, what is worn afterwards was worn
            // before, and none of it in the toggled piece's slot once that
            // piece is put on
            assert forall|k: int, s: Slot|
                0 <= k < after.len() && k != id && worn_in(after[k], s) implies worn_in(
                inventory[k],
                s,
            ) && (!e.equipped ==> s != e.slot) by {
                if !e.equipped && s == e.slot {
                    match worn_at(inventory, e.slot) {
                        Some(current) => {
                            assert(worn_flags(inventory, e.slot)[current]);
                            assert(worn_in(inventory[current], s));
                            if k != current {
                                assert(worn_in(inventory[k], s));
                            }
                        },
                        None => {
                            assert(!worn_flags(inventory, e.slot)[k]);
                        },
                    }
                }
            }
            assert forall|i: int, j: int, s: Slot|
                0 <= i < j < after.len() && worn_in(after[i], s) implies !worn_in(after[j], s) by {
                if worn_in(after[j], s) {
                    if i != id && j != id {
                        assert(worn_in(inventory[i], s));
                        assert(worn_in(inventory[j], s));
                    }
                }
            }
            assert forall|k: int|
                0 <= k < after.len() && ((#[trigger] after[k]).equipment matches Some(e)
                    && e.equipped) implies after[k].item is Some by {
                if k != id {
                    let s = after[k].equipment.unwrap().slot;
                    assert(worn_in(after[k], s));
                    assert(worn_in(inventory[k], s));
                }
            }
        },
    }
}

/// Puts inventory entry number `inventory_id` on if it is not worn, after
/// taking off what is worn in its slot, and takes it off if it is worn.
pub fn toggle_equipment(inventory_id: usize, game: &mut Game) -> (result: UseResult)
    requires
        inventory_id < old(game).inventory@.len(),
    ensures
        final(game).carried() == toggled(old(game).carried(), inventory_id as int),
        final(game).messages@ == toggled_log(
            old(game).carried(),
            inventory_id as int,
            old(game).messages@,
        ),
        final(game).same_place(*old(game)),
        result == if old(game).inventory@[inventory_id as int].equipment is Some {
            UseResult::UsedAndKept
        } else {
            UseResult::Cancelled
        },
{
    let ghost before = game.carried();
    let equipment = match game.inventory[inventory_id].equipment {
        Some(equipment) => equipment,
        None => {
            return UseResult::Cancelled;
        },
    };
    if equipment.equipped {
        game.inventory[inventory_id].dequip(&mut game.messages);
        assert(game.carried() =~= toggled(before, inventory_id as int));
    } else {
        match get_equipped_in_slot(equipment.slot, game.inventory.as_slice()) {
            Some(current) => {
                game.inventory[current].dequip(&mut game.messages);
                assert(game.carried() =~= before.update(
                    current as int,
                    before[current as int].taken_off(),
                ));
            },
            None => {},
        }
        game.inventory[inventory_id].equip(&mut game.messages);
        assert(game.carried() =~= toggled(before, inventory_id as int));
    }
    UseResult::UsedAndKept
}

/// Whether healing the player stays within what the numbers can hold: where
/// there is something to heal, so do the hit points with the potion's added,
/// and the most the player can have.
pub open spec fn heal_fits(w: World) -> bool {
    w.objects[0].fighter matches Some(f) ==> (f.hp != w.objects[0].max_hp(w.inventory)
        ==> fits_i32(f.hp + HEAL_AMOUNT) && fits_i32(w.objects[0].max_hp(w.inventory)))
}

/// A healing potion: heals the player, unless the player is at full health
/// already or cannot be hurt at all.
pub open spec fn heal_cast(w: World) -> (World, UseResult) {
    let player = w.objects[0];
    match player.fighter {
        Some(f) => if f.hp == player.max_hp(w.inventory) {
            (
                World { log: w.log.push(("You are already at full health."@, red())), ..w },
                UseResult::Cancelled,
            )
        } else {
            (
                World {
                    objects: w.objects.update(
                        0,
                        player.healed(HEAL_AMOUNT, player.max_hp(w.inventory)),
                    ),
                    log: w.log.push(("Your wounds start to feel better!"@, light_violet())),
                    ..w
                },
                UseResult::UsedUp,
            )
        },
        None => (w, UseResult::Cancelled),
    }
}

/// Drinks a healing potion.
pub fn cast_heal(game: &mut Game, objects: &mut [GameObject]) -> (result: UseResult)
    requires
        old(objects)@.len() > 0,
        heal_fits(world(*old(game), old(objects)@)),
    ensures
        final(objects)@.len() == old(objects)@.len(),
        world(*final(game), final(objects)@) == heal_cast(world(*old(game), old(objects)@)).0,
        result == heal_cast(world(*old(game), old(objects)@)).1,
        final(game).only_log_differs(*old(game)),
{
    let ghost before = world(*game, objects@);
    match objects[PLAYER].fighter {
        Some(fighter) => {
            let full = objects[PLAYER].max_hp_wide(game);
            if fighter.hp as i128 == full {
                game.messages.add("You are already at full health.", red());
                assert(world(*game, objects@) =~= heal_cast(before).0);
                return UseResult::Cancelled;
            }
            game.messages.add("Your wounds start to feel better!", light_violet());
            objects[PLAYER].heal(HEAL_AMOUNT, game);
            assert(world(*game, objects@) =~= heal_cast(before).0);
            UseResult::UsedUp
        },
        None => {
            assert(world(*game, objects@) =~= heal_cast(before).0);
            UseResult::Cancelled
        },
    }
}

/// What the log says of a lightning bolt that strikes `monster`.
pub open spec fn lightning_notice(monster: ObjectView) -> Seq<char> {
    "A lightning bolt strikes the "@ + monster.name
        + " with a loud thunger! The damage is "@ + decimal(LIGHTNING_DAMAGE as int)
        + " hit points."@
}

/// Whether the lightning bolt stays within what the numbers can hold.
pub open spec fn lightning_fits(w: World, fov: FovMap) -> bool {
    closest(w.objects, fov, LIGHTNING_RANGE as int, w.objects.len() as int) matches Some(m) ==> {
        let monster = w.objects[m];
        &&& fits_i32(monster.hp_after(LIGHTNING_DAMAGE))
        &&& monster.bounty(LIGHTNING_DAMAGE) matches Some(gain) ==> w.objects[0].fighter matches Some(
            f,
        ) && fits_i32(f.xp + gain)
    }
}

/// A scroll of lightning bolt: strikes the closest monster in view within
/// range, and credits the player with its experience if it dies.
pub open spec fn lightning_cast(w: World, fov: FovMap) -> (World, UseResult) {
    match closest(w.objects, fov, LIGHTNING_RANGE as int, w.objects.len() as int) {
        Some(m) => {
            let monster = w.objects[m];
            let said = w.log.push((lightning_notice(monster), light_blue()));
            let struck = w.objects.update(m, monster.damaged(LIGHTNING_DAMAGE));
            (
                World {
                    objects: struck.update(
                        0,
                        struck[0].credited(monster.bounty(LIGHTNING_DAMAGE)),
                    ),
                    log: monster.damage_log(LIGHTNING_DAMAGE, said),
                    ..w
                },
                UseResult::UsedUp,
            )
        },
        None => (
            World { log: w.log.push(("No enemy is close enough to strike."@, red())), ..w },
            UseResult::Cancelled,
        ),
    }
}

/// Reads a scroll of lightning bolt.
pub fn cast_lightning(fov: &FovMap, game: &mut Game, objects: &mut [GameObject]) -> (result:
    UseResult)
    requires
        lightning_fits(world(*old(game), old(objects)@), *fov),
    ensures
        final(objects)@.len() == old(objects)@.len(),
        world(*final(game), final(objects)@) == lightning_cast(
            world(*old(game), old(objects)@),
            *fov,
        ).0,
        result == lightning_cast(world(*old(game), old(objects)@), *fov).1,
        final(game).only_log_differs(*old(game)),
{
    let ghost before = world(*game, objects@);
    let monster_id = closest_monster(fov, objects, LIGHTNING_RANGE);
    match monster_id {
        Some(monster_id) => {
            let number = int_to_string(LIGHTNING_DAMAGE as i64);
            let notice = join5(
                "A lightning bolt strikes the ",
                objects[monster_id].name.as_str(),
                " with a loud thunger! The damage is ",
                number.as_str(),
                " hit points.",
            );
            game.messages.add(notice.as_str(), light_blue());
            match objects[monster_id].take_damage(LIGHTNING_DAMAGE, game) {
                Some(xp) => {
                    match objects[PLAYER].fighter {
                        Some(before_fighter) => {
                            let mut fighter = before_fighter;
                            fighter.xp = fighter.xp + xp;
                            objects[PLAYER].fighter = Some(fighter);
                        },
                        None => {},
                    }
                },
                None => {},
            }
            assert(world(*game, objects@) =~= lightning_cast(before, *fov).0);
            UseResult::UsedUp
        },
        None => {
            game.messages.add("No enemy is close enough to strike.", red());
            assert(world(*game, objects@) =~= lightning_cast(before, *fov).0);
            UseResult::Cancelled
        },
    }
}

/// The monster that a spell aimed at the tile `aim` is cast on: the first
/// monster that stands there.
pub open spec fn aimed_at(objects: Seq<ObjectView>, aim: Option<(i32, i32)>) -> Option<int> {
    match aim {
        Some((x, y)) => first_such(monsters_at(objects, x as int, y as int)),
        None => None,
    }
}

/// `object` confused: it stumbles about for a while, and then goes back to
/// what it did before.
pub open spec fn confused(object: ObjectView) -> ObjectView {
    ObjectView {
        ai: Some(
            Ai::Confused {
                previous_ai: Box::new(
                    match object.ai {
                        Some(ai) => ai,
                        None => Ai::Basic,
                    },
                ),
                num_turns: CONFUSE_NUM_TURNS,
            },
        ),
        ..object
    }
}

/// A scroll of confusion: confuses the monster it is aimed at, if there is
/// one.
pub open spec fn confuse_cast(w: World, aim: Option<(i32, i32)>) -> (World, UseResult) {
    let asked = w.log.push(
        ("Left-click an enemy to confuse it, or right-click to cancel."@, light_cyan()),
    );
    match aimed_at(w.objects, aim) {
        Some(m) => (
            World {
                objects: w.objects.update(m, confused(w.objects[m])),
                log: asked.push(
                    (
                        "The eyes of "@ + w.objects[m].name
                            + " look vacant, as he starts to stumble around!"@,
                        light_green(),
                    ),
                ),
                ..w
            },
            UseResult::UsedUp,
        ),
        None => (
            World { log: asked.push(("No enemy is close enough to strike."@, red())), ..w },
            UseResult::Cancelled,
        ),
    }
}

/// Reads a scroll of confusion, aimed at the tile `aim`.
pub fn cast_confuse(aim: Option<(i32, i32)>, game: &mut Game, objects: &mut [GameObject]) -> (result:
    UseResult)
    ensures
        final(objects)@.len() == old(objects)@.len(),
        world(*final(game), final(objects)@) == confuse_cast(
            world(*old(game), old(objects)@),
            aim,
        ).0,
        result == confuse_cast(world(*old(game), old(objects)@), aim).1,
        final(game).only_log_differs(*old(game)),
{
    let ghost before = world(*game, objects@);
    game.messages.add("Left-click an enemy to confuse it, or right-click to cancel.", light_cyan());
    let monster_id = match aim {
        Some((x, y)) => monster_at(objects, x, y),
        None => None,
    };
    match monster_id {
        Some(monster_id) => {
            let old_ai = match objects[monster_id].ai.take() {
                Some(ai) => ai,
                None => Ai::Basic,
            };
            objects[monster_id].ai = Some(
                Ai::Confused { previous_ai: Box::new(old_ai), num_turns: CONFUSE_NUM_TURNS },
            );
            let notice = join3(
                "The eyes of ",
                objects[monster_id].name.as_str(),
                " look vacant, as he starts to stumble around!",
            );
            game.messages.add(notice.as_str(), light_green());
            assert(world(*game, objects@) =~= confuse_cast(before, aim).0);
            UseResult::UsedUp
        },
        None => {
            game.messages.add("No enemy is close enough to strike.", red());
            assert(world(*game, objects@) =~= confuse_cast(before, aim).0);
            UseResult::Cancelled
        },
    }
}

/// Whether a fireball that goes off at `(x, y)` burns `object`: it is a
/// fighter no further away than the fireball's radius.
pub open spec fn scorched(object: ObjectView, x: int, y: int) -> bool {
    object.distance_sq(x, y) <= FIREBALL_RADIUS * FIREBALL_RADIUS && object.fighter is Some
}

/// What the log says of an entity that a fireball burns.
pub open spec fn burn_notice(object: ObjectView) -> Seq<char> {
    "The "@ + object.name + " gets burned for "@ + decimal(FIREBALL_DAMAGE as int)
        + " hit points."@
}

/// What a fireball has done so far.
#[verifier::ext_equal]
pub struct Burn {
    /// The entities.
    pub objects: Seq<ObjectView>,
    /// The log.
    pub log: Log,
    /// The experience of the monsters that died.
    pub xp: int,
}

/// What a fireball at `(x, y)` does to the first `n` entities, in order: each
/// one it burns takes the damage, and the experience of those that die of
/// it, other than the player, adds up.
pub open spec fn burn(objects: Seq<ObjectView>, log: Log, x: int, y: int, n: int) -> Burn
    decreases n,
{
    if n <= 0 {
        Burn { objects, log, xp: 0 }
    } else {
        let before = burn(objects, log, x, y, n - 1);
        let object = objects[n - 1];
        if scorched(object, x, y) {
            Burn {
                objects: before.objects.update(n - 1, object.damaged(FIREBALL_DAMAGE)),
                log: object.damage_log(
                    FIREBALL_DAMAGE,
                    before.log.push((burn_notice(object), orange())),
                ),
                xp: before.xp + match object.bounty(FIREBALL_DAMAGE) {
                    Some(gain) => if n - 1 != 0 {
                        gain as int
                    } else {
                        0
                    },
                    None => 0,
                },
            }
        } else {
            before
        }
    }
}

/// A fireball leaves the entities it has not come to as they were, and what
/// it gathers stays within bounds.
pub proof fn lemma_burn_frame(objects: Seq<ObjectView>, log: Log, x: int, y: int, n: int)
    requires
        0 <= n <= objects.len(),
    ensures
        burn(objects, log, x, y, n).objects.len() == objects.len(),
        forall|j: int| n <= j < objects.len() ==> burn(objects, log, x, y, n).objects[j] == objects[j],
        forall|j: int|
            0 <= j < n ==> burn(objects, log, x, y, n).objects[j] == if scorched(objects[j], x, y) {
                objects[j].damaged(FIREBALL_DAMAGE)
            } else {
                objects[j]
            },
        -0x8000_0000 * n <= burn(objects, log, x, y, n).xp <= 0x8000_0000 * n,
    decreases n,
{
    if n > 0 {
        lemma_burn_frame(objects, log, x, y, n - 1);
    }
}

/// Whether a fireball aimed at `aim` stays within what the numbers can hold:
/// so do the hit points of everyone it burns, and the player's experience
/// with what the fireball gathers added. The player needs a fighter
/// component to take the experience.
pub open spec fn fireball_fits(w: World, aim: Option<(i32, i32)>) -> bool {
    aim matches Some((x, y)) ==> {
        let burnt = burn(w.objects, w.log, x as int, y as int, w.objects.len() as int);
        &&& forall|i: int|
            0 <= i < w.objects.len() && scorched(#[trigger] w.objects[i], x as int, y as int)
                ==> fits_i32(w.objects[i].hp_after(FIREBALL_DAMAGE))
        &&& w.objects.len() > 0
        &&& burnt.objects[0].fighter matches Some(f) && fits_i32(f.xp + burnt.xp)
    }
}

/// What the log says when a fireball goes off.
pub open spec fn fireball_notice() -> Seq<char> {
    "The fireball explodes, burning everything within "@ + decimal(FIREBALL_RADIUS as int)
        + " tiles!"@
}

/// A scroll of fireball: burns every fighter around the tile it is aimed at,
/// the player too, and credits the player with the experience of the
/// monsters that die.
pub open spec fn fireball_cast(w: World, aim: Option<(i32, i32)>) -> (World, UseResult) {
    let asked = w.log.push(
        ("Left-click a target tile for the fireball, or right-click to cancel."@, light_cyan()),
    );
    match aim {
        None => (World { log: asked, ..w }, UseResult::Cancelled),
        Some((x, y)) => {
            let burnt = burn(
                w.objects,
                asked.push((fireball_notice(), orange())),
                x as int,
                y as int,
                w.objects.len() as int,
            );
            (
                World {
                    objects: burnt.objects.update(0, burnt.objects[0].gained(burnt.xp)),
                    log: burnt.log,
                    ..w
                },
                UseResult::UsedUp,
            )
        },
    }
}

/// `burn` does with any log what it does with the empty one, only later.
proof fn lemma_burn_log(objects: Seq<ObjectView>, a: Log, b: Log, x: int, y: int, n: int)
    requires
        0 <= n <= objects.len(),
    ensures
        burn(objects, a, x, y, n).objects == burn(objects, b, x, y, n).objects,
        burn(objects, a, x, y, n).xp == burn(objects, b, x, y, n).xp,
    decreases n,
{
    if n > 0 {
        lemma_burn_log(objects, a, b, x, y, n - 1);
    }
}

/// Reads a scroll of fireball, aimed at the tile `aim`.
pub fn cast_fireball(aim: Option<(i32, i32)>, game: &mut Game, objects: &mut [GameObject]) -> (result:
    UseResult)
    requires
        fireball_fits(world(*old(game), old(objects)@), aim),
    ensures
        final(objects)@.len() == old(objects)@.len(),
        world(*final(game), final(objects)@) == fireball_cast(
            world(*old(game), old(objects)@),
            aim,
        ).0,
        result == fireball_cast(world(*old(game), old(objects)@), aim).1,
        final(game).only_log_differs(*old(game)),
{
    let ghost before = world(*game, objects@);
    game.messages.add(
        "Left-click a target tile for the fireball, or right-click to cancel.",
        light_cyan(),
    );
    let (x, y) = match aim {
        Some(tile) => tile,
        None => {
            assert(world(*game, objects@) =~= fireball_cast(before, aim).0);
            return UseResult::Cancelled;
        },
    };
    let radius = int_to_string(FIREBALL_RADIUS as i64);
    let notice = join3("The fireball explodes, burning everything within ", radius.as_str(), " tiles!");
    game.messages.add(notice.as_str(), orange());
    let ghost said = game.messages@;
    assert(said == before.log.push(
        ("Left-click a target tile for the fireball, or right-click to cancel."@, light_cyan()),
    ).push((fireball_notice(), orange())));
    let damage = int_to_string(FIREBALL_DAMAGE as i64);
    let mut xp_to_gain: i128 = 0;
    let mut id: usize = 0;
    while id < objects.len()
        invariant
            id <= objects@.len(),
            said == before.log.push(
                (
                    "Left-click a target tile for the fireball, or right-click to cancel."@,
                    light_cyan(),
                ),
            ).push((fireball_notice(), orange())),
            objects@.len() == before.objects.len(),
            before == world(*old(game), old(objects)@),
            damage@ == decimal(FIREBALL_DAMAGE as int),
            fireball_fits(before, aim),
            aim == Some((x, y)),
            views(objects@) == burn(before.objects, said, x as int, y as int, id as int).objects,
            game.messages@ == burn(before.objects, said, x as int, y as int, id as int).log,
            xp_to_gain == burn(before.objects, said, x as int, y as int, id as int).xp,
            -0x8000_0000 * id <= xp_to_gain <= 0x8000_0000 * id,
            game.only_log_differs(*old(game)),
        decreases objects@.len() - id,
    {
        proof {
            lemma_burn_frame(before.objects, said, x as int, y as int, id as int);
            assert(objects@[id as int]@ == before.objects[id as int]);
        }
        if objects[id].distance_sq(x, y) <= (FIREBALL_RADIUS * FIREBALL_RADIUS) as i128
            && objects[id].fighter.is_some() {
            let notice = join5(
                "The ",
                objects[id].name.as_str(),
                " gets burned for ",
                damage.as_str(),
                " hit points.",
            );
            game.messages.add(notice.as_str(), orange());
            match objects[id].take_damage(FIREBALL_DAMAGE, game) {
                Some(xp) => {
                    if id != PLAYER {
                        xp_to_gain = xp_to_gain + xp as i128;
                    }
                },
                None => {},
            }
            assert(views(objects@) =~= burn(
                before.objects,
                said,
                x as int,
                y as int,
                id + 1,
            ).objects);
        }
        id += 1;
    }
    proof {
        lemma_burn_frame(before.objects, said, x as int, y as int, id as int);
        lemma_burn_log(
            before.objects,
            before.log,
            said,
            x as int,
            y as int,
            before.objects.len() as int,
        );
    }
    match objects[PLAYER].fighter {
        Some(before_fighter) => {
            let mut fighter = before_fighter;
            fighter.xp = (fighter.xp as i128 + xp_to_gain) as i32;
            objects[PLAYER].fighter = Some(fighter);
        },
        None => {},
    }
    assert(world(*game, objects@) =~= fireball_cast(before, aim).0);
    UseResult::UsedUp
}

/// What using `item` does, and what becomes of it.
pub open spec fn cast(item: Item, w: World, fov: FovMap, id: int, aim: Option<(i32, i32)>) -> (
    World,
    UseResult,
) {
    match item {
        Item::Heal => heal_cast(w),
        Item::Lightning => lightning_cast(w, fov),
        Item::Confuse => confuse_cast(w, aim),
        Item::Fireball => fireball_cast(w, aim),
        _ => (
            World {
                inventory: toggled(w.inventory, id),
                log: toggled_log(w.inventory, id, w.log),
                ..w
            },
            if w.inventory[id].equipment is Some {
                UseResult::UsedAndKept
            } else {
                UseResult::Cancelled
            },
        ),
    }
}

/// Whether using `item` stays within what the numbers can hold.
pub open spec fn cast_fits(item: Item, w: World, fov: FovMap, aim: Option<(i32, i32)>) -> bool {
    match item {
        Item::Heal => w.objects.len() > 0 && heal_fits(w),
        Item::Lightning => lightning_fits(w, fov),
        Item::Fireball => fireball_fits(w, aim),
        _ => true,
    }
}

/// The world after inventory entry number `id` was used: what the item does
/// was done; an item that was used up is gone from the inventory, one whose
/// use was cancelled leaves a note of that in the log. Something that is no
/// item leaves only a complaint.
pub open spec fn used(w: World, fov: FovMap, id: int, aim: Option<(i32, i32)>) -> World {
    match w.inventory[id].item {
        None => World {
            log: w.log.push(("The "@ + w.inventory[id].name + " cannot be used."@, white())),
            ..w
        },
        Some(item) => {
            let (after, result) = cast(item, w, fov, id, aim);
            match result {
                UseResult::UsedUp => World { inventory: after.inventory.remove(id), ..after },
                UseResult::UsedAndKept => after,
                UseResult::Cancelled => World { log: after.log.push(("Cancelled"@, white())), ..after },
            }
        },
    }
}

/// Uses inventory entry number `inventory_id`. `aim` is the tile that the
/// player has pointed at, for the items that are aimed, and `None` where the
/// player has given up aiming.
pub fn use_item(
    inventory_id: usize,
    aim: Option<(i32, i32)>,
    fov: &FovMap,
    game: &mut Game,
    objects: &mut [GameObject],
)
    requires
        inventory_id < old(game).inventory@.len(),
        old(game).inventory@[inventory_id as int].item matches Some(item) ==> cast_fits(
            item,
            world(*old(game), old(objects)@),
            *fov,
            aim,
        ),
    ensures
        final(objects)@.len() == old(objects)@.len(),
        world(*final(game), final(objects)@) == used(
            world(*old(game), old(objects)@),
            *fov,
            inventory_id as int,
            aim,
        ),
        final(game).same_place(*old(game)),
        orderly(old(game).carried()) ==> orderly(final(game).carried()),
{
    let ghost before = world(*game, objects@);
    match game.inventory[inventory_id].item {
        Some(item) => {
            let result = match item {
                Item::Heal => cast_heal(game, objects),
                Item::Lightning => cast_lightning(fov, game, objects),
                Item::Confuse => cast_confuse(aim, game, objects),
                Item::Fireball => cast_fireball(aim, game, objects),
                Item::Sword => toggle_equipment(inventory_id, game),
                Item::Shield => toggle_equipment(inventory_id, game),
            };
            let ghost cast_world = world(*game, objects@);
            assert(cast_world =~= cast(item, before, *fov, inventory_id as int, aim).0);
            proof {
                if orderly(before.inventory) {
                    lemma_toggle_keeps_order(before.inventory, inventory_id as int);
                    lemma_remove_keeps_order(before.inventory, inventory_id as int);
                }
            }
            match result {
                UseResult::UsedUp => {
                    game.inventory.remove(inventory_id);
                    assert(game.carried() =~= cast_world.inventory.remove(inventory_id as int));
                },
                UseResult::UsedAndKept => {},
                UseResult::Cancelled => {
                    game.messages.add("Cancelled", white());
                },
            }
            assert(world(*game, objects@) =~= used(before, *fov, inventory_id as int, aim));
        },
        None => {
            let notice = join3("The ", game.inventory[inventory_id].name.as_str(), " cannot be used.");
            game.messages.add(notice.as_str(), white());
            assert(world(*game, objects@) =~= used(before, *fov, inventory_id as int, aim));
        },
    }
}

} // verus!
