//! What the dungeon is populated with: the monsters and items there are, and
//! how likely each is at a given depth.

use crate::colors::{
    darker_green, darker_orange, desaturated_green, light_yellow, sky, violet, Color,
};
use crate::equipment::{Equipment, Slot};
use crate::game_object::{Ai, DeathCallback, Fighter, GameObject, Item, ObjectView};
use crate::transition::{from_dungeon_level, level_value, Transition};
use vstd::prelude::*;

verus! {

/// The kinds of monster.
#[derive(Clone, Copy, Debug, PartialEq, Eq, Structural)]
pub enum MonsterKind {
    Orc,
    Troll,
}

/// A table with a single step: `value` from dungeon level `level` on.
pub open spec fn from_level(level: u32, value: u32) -> Seq<Transition> {
    seq![Transition { level, value }]
}

/// A table that gives 0 at every depth.
pub open spec fn never() -> Seq<Transition> {
    Seq::empty()
}

/// How the weight of each kind of monster in the draw depends on depth.
pub open spec fn monster_weights(kind: MonsterKind) -> Seq<Transition> {
    match kind {
        MonsterKind::Orc => from_level(1, 80),
        MonsterKind::Troll => from_level(1, 20),
    }
}

/// How the weight of each item in the draw depends on depth.
pub open spec fn item_weights(item: Item) -> Seq<Transition> {
    match item {
        Item::Heal => from_level(1, 70),
        Item::Lightning => from_level(1, 10),
        Item::Fireball => from_level(1, 10),
        Item::Confuse => from_level(1, 10),
        Item::Sword => never(),
        Item::Shield => never(),
    }
}

/// The weight of `kind` in the draw of a monster at `level`.
pub open spec fn monster_weight(kind: MonsterKind, level: u32) -> u32 {
    level_value(monster_weights(kind), level)
}

/// The weight of `item` in the draw of an item at `level`.
pub open spec fn item_weight(item: Item, level: u32) -> u32 {
    level_value(item_weights(item), level)
}

/// A single-step table gives its value from its level on and 0 before.
pub proof fn lemma_from_level(first: u32, value: u32, level: u32)
    ensures
        level_value(from_level(first, value), level) == if level >= first {
            value
        } else {
            0
        },
        level_value(never(), level) == 0,
{
    let table = from_level(first, value);
    assert(table.last() == Transition { level: first, value });
    assert(table.drop_last().len() == 0);
    assert(level_value(table.drop_last(), level) == 0);
}

fn single_step(level: u32, value: u32) -> (table: Vec<Transition>)
    ensures
        table@ == from_level(level, value),
{
    let mut table: Vec<Transition> = Vec::new();
    table.push(Transition { level, value });
    assert(table@ =~= from_level(level, value));
    table
}

/// The weight of `kind` in the draw of a monster at `level`.
pub fn monster_chance(kind: MonsterKind, level: u32) -> (weight: u32)
    ensures
        weight == monster_weight(kind, level),
        weight <= 100,
{
    let table = match kind {
        MonsterKind::Orc => single_step(1, 80),
        MonsterKind::Troll => single_step(1, 20),
    };
    proof {
        lemma_from_level(1, 80, level);
        lemma_from_level(1, 20, level);
    }
    from_dungeon_level(table.as_slice(), level)
}

/// The weight of `item` in the draw of an item at `level`.
pub fn item_chance(item: Item, level: u32) -> (weight: u32)
    ensures
        weight == item_weight(item, level),
        weight <= 100,
{
    let table = match item {
        Item::Heal => single_step(1, 70),
        Item::Lightning => single_step(1, 10),
        Item::Fireball => single_step(1, 10),
        Item::Confuse => single_step(1, 10),
        Item::Sword => Vec::new(),
        Item::Shield => Vec::new(),
    };
    proof {
        lemma_from_level(1, 70, level);
        lemma_from_level(1, 10, level);
        assert(table@.len() == 0 ==> table@ =~= never());
    }
    from_dungeon_level(table.as_slice(), level)
}

/// Sum of all monster weights at `level`.
pub open spec fn monster_total(level: u32) -> int {
    monster_weight(MonsterKind::Orc, level) + monster_weight(MonsterKind::Troll, level)
}

/// Sum of all item weights at `level`.
pub open spec fn item_total(level: u32) -> int {
    item_weight(Item::Heal, level) + item_weight(Item::Lightning, level) + item_weight(
        Item::Fireball,
        level,
    ) + item_weight(Item::Confuse, level) + item_weight(Item::Sword, level) + item_weight(
        Item::Shield,
        level,
    )
}

/// The monster that the draw `roll` stands for: the kinds are laid out one
/// after the other, each as wide as its weight, and `roll` points at one.
pub open spec fn monster_drawn(roll: int, level: u32) -> MonsterKind {
    if roll < monster_weight(MonsterKind::Orc, level) {
        MonsterKind::Orc
    } else {
        MonsterKind::Troll
    }
}

/// The item that the draw `roll` stands for: the items are laid out one after
/// the other, each as wide as its weight, and `roll` points at one.
pub open spec fn item_drawn(roll: int, level: u32) -> Item {
    let heal = item_weight(Item::Heal, level) as int;
    let lightning = heal + item_weight(Item::Lightning, level);
    let fireball = lightning + item_weight(Item::Fireball, level);
    let confuse = fireball + item_weight(Item::Confuse, level);
    let sword = confuse + item_weight(Item::Sword, level);
    if roll < heal {
        Item::Heal
    } else if roll < lightning {
        Item::Lightning
    } else if roll < fireball {
        Item::Fireball
    } else if roll < confuse {
        Item::Confuse
    } else if roll < sword {
        Item::Sword
    } else {
        Item::Shield
    }
}

/// Sum of all monster weights at `level`.
pub fn monster_chances(level: u32) -> (total: u32)
    ensures
        total == monster_total(level),
        total <= 200,
{
    monster_chance(MonsterKind::Orc, level) + monster_chance(MonsterKind::Troll, level)
}

/// Sum of all item weights at `level`.
pub fn item_chances(level: u32) -> (total: u32)
    ensures
        total == item_total(level),
        total <= 600,
{
    item_chance(Item::Heal, level) + item_chance(Item::Lightning, level) + item_chance(
        Item::Fireball,
        level,
    ) + item_chance(Item::Confuse, level) + item_chance(Item::Sword, level) + item_chance(
        Item::Shield,
        level,
    )
}

/// The monster that the draw `roll` stands for.
pub fn monster_for(roll: u32, level: u32) -> (kind: MonsterKind)
    requires
        roll < monster_total(level),
    ensures
        kind == monster_drawn(roll as int, level),
        monster_weight(kind, level) > 0,
{
    if roll < monster_chance(MonsterKind::Orc, level) {
        MonsterKind::Orc
    } else {
        MonsterKind::Troll
    }
}

/// The item that the draw `roll` stands for.
pub fn item_for(roll: u32, level: u32) -> (item: Item)
    requires
        roll < item_total(level),
    ensures
        item == item_drawn(roll as int, level),
        item_weight(item, level) > 0,
{
    let heal = item_chance(Item::Heal, level);
    let lightning = heal + item_chance(Item::Lightning, level);
    let fireball = lightning + item_chance(Item::Fireball, level);
    let confuse = fireball + item_chance(Item::Confuse, level);
    let sword = confuse + item_chance(Item::Sword, level);
    if roll < heal {
        Item::Heal
    } else if roll < lightning {
        Item::Lightning
    } else if roll < fireball {
        Item::Fireball
    } else if roll < confuse {
        Item::Confuse
    } else if roll < sword {
        Item::Sword
    } else {
        Item::Shield
    }
}

/// What a monster looks like and is called.
pub open spec fn monster_look(kind: MonsterKind) -> (char, Seq<char>, Color) {
    match kind {
        MonsterKind::Orc => ('o', "orc"@, desaturated_green()),
        MonsterKind::Troll => ('T', "troll"@, darker_green()),
    }
}

/// What a monster is measured by.
#[derive(Clone, Copy, Debug, PartialEq, Eq, Structural)]
pub enum Stat {
    MaxHp,
    Defense,
    Power,
    Xp,
}

/// How each stat of each kind of monster depends on depth.
pub open spec fn monster_stats(kind: MonsterKind, stat: Stat) -> Seq<Transition> {
    match kind {
        MonsterKind::Orc => match stat {
            Stat::MaxHp => from_level(1, 10),
            Stat::Defense => never(),
            Stat::Power => from_level(1, 3),
            Stat::Xp => from_level(1, 35),
        },
        MonsterKind::Troll => match stat {
            Stat::MaxHp => from_level(1, 16),
            Stat::Defense => from_level(1, 1),
            Stat::Power => from_level(1, 4),
            Stat::Xp => from_level(1, 100),
        },
    }
}

/// The value of `stat` for a monster of `kind` at `level`.
pub open spec fn monster_stat(kind: MonsterKind, stat: Stat, level: u32) -> u32 {
    level_value(monster_stats(kind, stat), level)
}

/// The value of `stat` for a monster of `kind` at `level`.
pub fn monster_stat_at(kind: MonsterKind, stat: Stat, level: u32) -> (value: i32)
    ensures
        value == monster_stat(kind, stat, level),
        0 <= value <= 100,
{
    let table = match kind {
        MonsterKind::Orc => match stat {
            Stat::MaxHp => single_step(1, 10),
            Stat::Defense => Vec::new(),
            Stat::Power => single_step(1, 3),
            Stat::Xp => single_step(1, 35),
        },
        MonsterKind::Troll => match stat {
            Stat::MaxHp => single_step(1, 16),
            Stat::Defense => single_step(1, 1),
            Stat::Power => single_step(1, 4),
            Stat::Xp => single_step(1, 100),
        },
    };
    proof {
        lemma_from_level(1, 10, level);
        lemma_from_level(1, 3, level);
        lemma_from_level(1, 35, level);
        lemma_from_level(1, 16, level);
        lemma_from_level(1, 1, level);
        lemma_from_level(1, 4, level);
        lemma_from_level(1, 100, level);
        assert(table@.len() == 0 ==> table@ =~= never());
    }
    let value = from_dungeon_level(table.as_slice(), level);
    value as i32
}

/// What a monster of `kind` fights with at `level`.
pub open spec fn monster_fighter(kind: MonsterKind, level: u32) -> Fighter {
    Fighter {
        hp: monster_stat(kind, Stat::MaxHp, level) as i32,
        base_max_hp: monster_stat(kind, Stat::MaxHp, level) as i32,
        base_defense: monster_stat(kind, Stat::Defense, level) as i32,
        base_power: monster_stat(kind, Stat::Power, level) as i32,
        xp: monster_stat(kind, Stat::Xp, level) as i32,
        on_death: DeathCallback::Monster,
    }
}

/// A fresh monster of `kind` at `(x, y)`, as strong as its kind is at
/// `level`.
pub open spec fn monster_view(kind: MonsterKind, x: i32, y: i32, level: u32) -> ObjectView {
    ObjectView {
        x,
        y,
        glyph: monster_look(kind).0,
        name: monster_look(kind).1,
        color: monster_look(kind).2,
        blocks: true,
        alive: true,
        fighter: Some(monster_fighter(kind, level)),
        ai: Some(Ai::Basic),
        item: None,
        equipment: None,
        always_visible: false,
        level: 1,
    }
}

/// From the first level on, an orc has 10 hit points, no defense, power 3
/// and is worth 35 experience; a troll has 16 hit points, defense 1, power 4
/// and is worth 100.
pub proof fn lemma_monster_fighter(level: u32)
    requires
        level >= 1,
    ensures
        monster_fighter(MonsterKind::Orc, level) == (Fighter {
            hp: 10,
            base_max_hp: 10,
            base_defense: 0,
            base_power: 3,
            xp: 35,
            on_death: DeathCallback::Monster,
        }),
        monster_fighter(MonsterKind::Troll, level) == (Fighter {
            hp: 16,
            base_max_hp: 16,
            base_defense: 1,
            base_power: 4,
            xp: 100,
            on_death: DeathCallback::Monster,
        }),
{
    lemma_from_level(1, 10, level);
    lemma_from_level(1, 3, level);
    lemma_from_level(1, 35, level);
    lemma_from_level(1, 16, level);
    lemma_from_level(1, 1, level);
    lemma_from_level(1, 4, level);
    lemma_from_level(1, 100, level);
}

/// A fresh monster of `kind` at `(x, y)`, as strong as its kind is at
/// `level`.
pub fn monster(kind: MonsterKind, x: i32, y: i32, level: u32) -> (object: GameObject)
    ensures
        object@ == monster_view(kind, x, y, level),
{
    let mut object = match kind {
        MonsterKind::Orc => GameObject::new(x, y, 'o', "orc", desaturated_green(), true),
        MonsterKind::Troll => GameObject::new(x, y, 'T', "troll", darker_green(), true),
    };
    let max_hp = monster_stat_at(kind, Stat::MaxHp, level);
    object.fighter = Some(
        Fighter {
            hp: max_hp,
            base_max_hp: max_hp,
            base_defense: monster_stat_at(kind, Stat::Defense, level),
            base_power: monster_stat_at(kind, Stat::Power, level),
            xp: monster_stat_at(kind, Stat::Xp, level),
            on_death: DeathCallback::Monster,
        },
    );
    object.ai = Some(Ai::Basic);
    object.alive = true;
    assert(object@ =~= monster_view(kind, x, y, level));
    object
}

/// What an item looks like and is called.
pub open spec fn item_look(item: Item) -> (char, Seq<char>, Color) {
    match item {
        Item::Heal => ('!', "healing potion"@, violet()),
        Item::Lightning => ('#', "scroll of lightning bolt"@, light_yellow()),
        Item::Fireball => ('#', "scroll of fireball"@, light_yellow()),
        Item::Confuse => ('#', "scroll of confusion"@, light_yellow()),
        Item::Sword => ('/', "sword"@, sky()),
        Item::Shield => ('[', "shield"@, darker_orange()),
    }
}

/// What an item is worn as, if it can be worn.
pub open spec fn item_equipment(item: Item) -> Option<Equipment> {
    match item {
        Item::Sword => Some(
            Equipment {
                slot: Slot::RightHand,
                equipped: false,
                power_bonus: 3,
                defense_bonus: 0,
                max_hp_bonus: 0,
            },
        ),
        Item::Shield => Some(
            Equipment {
                slot: Slot::LeftHand,
                equipped: false,
                power_bonus: 0,
                defense_bonus: 1,
                max_hp_bonus: 0,
            },
        ),
        _ => None,
    }
}

/// A fresh `item` lying at `(x, y)`.
pub open spec fn item_view(item: Item, x: i32, y: i32) -> ObjectView {
    ObjectView {
        x,
        y,
        glyph: item_look(item).0,
        name: item_look(item).1,
        color: item_look(item).2,
        blocks: false,
        alive: false,
        fighter: None,
        ai: None,
        item: Some(item),
        equipment: item_equipment(item),
        always_visible: true,
        level: 1,
    }
}

/// A fresh `item` lying at `(x, y)`.
pub fn item_object(item: Item, x: i32, y: i32) -> (object: GameObject)
    ensures
        object@ == item_view(item, x, y),
{
    let mut object = match item {
        Item::Heal => GameObject::new(x, y, '!', "healing potion", violet(), false),
        Item::Lightning => GameObject::new(
            x,
            y,
            '#',
            "scroll of lightning bolt",
            light_yellow(),
            false,
        ),
        Item::Fireball => GameObject::new(x, y, '#', "scroll of fireball", light_yellow(), false),
        Item::Confuse => GameObject::new(x, y, '#', "scroll of confusion", light_yellow(), false),
        Item::Sword => {
            let mut sword = GameObject::new(x, y, '/', "sword", sky(), false);
            sword.equipment = Some(
                Equipment {
                    slot: Slot::RightHand,
                    equipped: false,
                    power_bonus: 3,
                    defense_bonus: 0,
                    max_hp_bonus: 0,
                },
            );
            sword
        },
        Item::Shield => {
            let mut shield = GameObject::new(x, y, '[', "shield", darker_orange(), false);
            shield.equipment = Some(
                Equipment {
                    slot: Slot::LeftHand,
                    equipped: false,
                    power_bonus: 0,
                    defense_bonus: 1,
                    max_hp_bonus: 0,
                },
            );
            shield
        },
    };
    object.item = Some(item);
    object.always_visible = true;
    assert(object@ =~= item_view(item, x, y));
    object
}

} // verus!
