//! Entities and the rules of combat, progression and item use.

use crate::colors::{dark_red, light_green, light_yellow, orange, red, white, Color};
use crate::equipment::Equipment;
use crate::game::{Game, Log};
use crate::map::{open_tile, tiles, Grid, Tile};
use crate::panel::Messages;
use crate::text::{decimal, int_to_string, join2, join3, join4, join5};
use vstd::prelude::*;
use vstd::string::*;

verus! {

/// The player's index among the entities.
pub const PLAYER: usize = 0;

/// Hit points a healing potion restores.
pub const HEAL_AMOUNT: i32 = 40;

/// Damage a lightning bolt deals.
pub const LIGHTNING_DAMAGE: i32 = 40;

/// How far a lightning bolt reaches.
pub const LIGHTNING_RANGE: i32 = 5;

/// How many turns a confusion lasts.
pub const CONFUSE_NUM_TURNS: i32 = 10;

/// How far a scroll of confusion reaches.
pub const CONFUSE_RANGE: i32 = 8;

/// How far a fireball burns around its target.
pub const FIREBALL_RADIUS: i32 = 3;

/// Damage a fireball deals.
pub const FIREBALL_DAMAGE: i32 = 25;

/// Experience needed for the first level-up beyond the per-level part.
pub const LEVEL_UP_BASE: i32 = 200;

/// Experience needed per level already reached.
pub const LEVEL_UP_FACTOR: i32 = 150;

/// What became of the player's turn.
#[derive(Clone, Copy, Debug, PartialEq, Eq, Structural)]
pub enum PlayerAction {
    TookTurn,
    DidntTakeTurn,
    Exit,
}

/// What happens to an entity when it dies.
#[derive(Clone, Copy, Debug, PartialEq, Eq, Structural)]
pub enum DeathCallback {
    Player,
    Monster,
}

/// What makes an entity able to fight.
#[derive(Clone, Copy, Debug, PartialEq, Eq, Structural)]
pub struct Fighter {
    pub hp: i32,
    pub base_max_hp: i32,
    pub base_defense: i32,
    pub base_power: i32,
    pub xp: i32,
    pub on_death: DeathCallback,
}

/// How a monster decides what to do. A confused monster remembers what it
/// was before, to return to it when the confusion wears off.
#[derive(Debug, PartialEq, Eq)]
pub enum Ai {
    Basic,
    Confused { previous_ai: Box<Ai>, num_turns: i32 },
}

/// What using an object from the inventory does.
#[derive(Clone, Copy, Debug, PartialEq, Eq, Structural)]
pub enum Item {
    Heal,
    Lightning,
    Confuse,
    Fireball,
    Sword,
    Shield,
}

/// Anything that stands in the dungeon or lies in the inventory.
#[derive(Debug)]
pub struct GameObject {
    pub x: i32,
    pub y: i32,
    pub glyph: char,
    pub name: String,
    pub color: Color,
    pub blocks: bool,
    pub alive: bool,
    pub fighter: Option<Fighter>,
    pub ai: Option<Ai>,
    pub item: Option<Item>,
    pub equipment: Option<Equipment>,
    pub always_visible: bool,
    pub level: i32,
}

/// A `GameObject` as the contracts see it: the same fields, the name as the
/// characters it is made of.
#[verifier::ext_equal]
pub struct ObjectView {
    pub x: i32,
    pub y: i32,
    pub glyph: char,
    pub name: Seq<char>,
    pub color: Color,
    pub blocks: bool,
    pub alive: bool,
    pub fighter: Option<Fighter>,
    pub ai: Option<Ai>,
    pub item: Option<Item>,
    pub equipment: Option<Equipment>,
    pub always_visible: bool,
    pub level: i32,
}

impl View for GameObject {
    type V = ObjectView;

    open spec fn view(&self) -> ObjectView {
        ObjectView {
            x: self.x,
            y: self.y,
            glyph: self.glyph,
            name: self.name@,
            color: self.color,
            blocks: self.blocks,
            alive: self.alive,
            fighter: self.fighter,
            ai: self.ai,
            item: self.item,
            equipment: self.equipment,
            always_visible: self.always_visible,
            level: self.level,
        }
    }
}

/// The views of a sequence of objects.
pub open spec fn views(objects: Seq<GameObject>) -> Seq<ObjectView> {
    Seq::new(objects.len(), |i: int| objects[i]@)
}

/// Whether `v` fits an `i32`.
pub open spec fn fits_i32(v: int) -> bool {
    i32::MIN <= v <= i32::MAX
}

/// The equipment that is worn among `inventory`, in inventory order.
pub open spec fn worn(inventory: Seq<ObjectView>) -> Seq<Equipment>
    decreases inventory.len(),
{
    if inventory.len() == 0 {
        Seq::empty()
    } else {
        let rest = worn(inventory.drop_last());
        match inventory.last().equipment {
            Some(e) => if e.equipped {
                rest.push(e)
            } else {
                rest
            },
            None => rest,
        }
    }
}

/// Sum of the power bonuses of `pieces`.
pub open spec fn total_power_bonus(pieces: Seq<Equipment>) -> int
    decreases pieces.len(),
{
    if pieces.len() == 0 {
        0
    } else {
        total_power_bonus(pieces.drop_last()) + pieces.last().power_bonus
    }
}

/// Sum of the defense bonuses of `pieces`.
pub open spec fn total_defense_bonus(pieces: Seq<Equipment>) -> int
    decreases pieces.len(),
{
    if pieces.len() == 0 {
        0
    } else {
        total_defense_bonus(pieces.drop_last()) + pieces.last().defense_bonus
    }
}

/// Sum of the hit point bonuses of `pieces`.
pub open spec fn total_max_hp_bonus(pieces: Seq<Equipment>) -> int
    decreases pieces.len(),
{
    if pieces.len() == 0 {
        0
    } else {
        total_max_hp_bonus(pieces.drop_last()) + pieces.last().max_hp_bonus
    }
}

impl ObjectView {
    /// The player is the entity named "player".
    pub open spec fn is_player(self) -> bool {
        self.name == "player"@
    }

    /// The equipment that lends its bonuses to this entity: what is worn
    /// among the inventory for the player, nothing for anyone else.
    pub open spec fn all_equipped(self, inventory: Seq<ObjectView>) -> Seq<Equipment> {
        if self.is_player() {
            worn(inventory)
        } else {
            Seq::empty()
        }
    }

    /// Attack strength: the base value plus what the equipment lends.
    pub open spec fn power(self, inventory: Seq<ObjectView>) -> int {
        (match self.fighter {
            Some(f) => f.base_power as int,
            None => 0,
        }) + total_power_bonus(self.all_equipped(inventory))
    }

    /// Armour: the base value plus what the equipment lends.
    pub open spec fn defense(self, inventory: Seq<ObjectView>) -> int {
        (match self.fighter {
            Some(f) => f.base_defense as int,
            None => 0,
        }) + total_defense_bonus(self.all_equipped(inventory))
    }

    /// Most hit points the entity can have: the base value plus what the
    /// equipment lends.
    pub open spec fn max_hp(self, inventory: Seq<ObjectView>) -> int {
        (match self.fighter {
            Some(f) => f.base_max_hp as int,
            None => 0,
        }) + total_max_hp_bonus(self.all_equipped(inventory))
    }

    /// Square of the distance to the tile `(x, y)`.
    pub open spec fn distance_sq(self, x: int, y: int) -> int {
        (x - self.x) * (x - self.x) + (y - self.y) * (y - self.y)
    }

    /// Hit points left after `damage`; damage that is not positive does
    /// nothing.
    pub open spec fn hp_after(self, damage: i32) -> int {
        let hp = self.fighter.unwrap().hp;
        if damage > 0 {
            hp - damage
        } else {
            hp as int
        }
    }

    /// Whether `damage` kills: the entity is a fighter that was alive and is
    /// left with no hit points. Who is dead already does not die again.
    pub open spec fn dies_of(self, damage: i32) -> bool {
        self.alive && self.fighter is Some && self.hp_after(damage) <= 0
    }

    /// What the death transition leaves of the entity.
    pub open spec fn dead(self) -> ObjectView {
        match self.fighter.unwrap().on_death {
            DeathCallback::Player => ObjectView { alive: false, glyph: '%', color: dark_red(), ..self },
            DeathCallback::Monster => ObjectView {
                alive: false,
                glyph: '%',
                color: dark_red(),
                blocks: false,
                fighter: None,
                ai: None,
                name: "remains of "@ + self.name,
                ..self
            },
        }
    }

    /// What the log says of the entity's death.
    pub open spec fn death_notice(self) -> (Seq<char>, Color) {
        match self.fighter.unwrap().on_death {
            DeathCallback::Player => ("You died!"@, red()),
            DeathCallback::Monster => (self.name + " Is dead!"@, orange()),
        }
    }

    /// The entity with its hit points set to `hp`.
    pub open spec fn with_hp(self, hp: i32) -> ObjectView {
        ObjectView { fighter: Some(Fighter { hp, ..self.fighter.unwrap() }), ..self }
    }

    /// The entity after taking `damage`: unchanged without a fighter
    /// component, else hurt, and dead where it was alive and no hit points
    /// are left.
    pub open spec fn damaged(self, damage: i32) -> ObjectView {
        if self.fighter is None {
            self
        } else if self.dies_of(damage) {
            self.with_hp(self.hp_after(damage) as i32).dead()
        } else {
            self.with_hp(self.hp_after(damage) as i32)
        }
    }

    /// The log after the entity took `damage`.
    pub open spec fn damage_log(self, damage: i32, log: Log) -> Log {
        if self.dies_of(damage) {
            log.push(self.death_notice())
        } else {
            log
        }
    }

    /// The experience that `damage` sets free: the victim's, if it dies.
    pub open spec fn bounty(self, damage: i32) -> Option<i32> {
        if self.dies_of(damage) {
            Some(self.fighter.unwrap().xp)
        } else {
            None
        }
    }

    /// The entity after a heal of `amount`: hit points raised, kept at zero
    /// or above, and capped at `max_hp`.
    pub open spec fn healed(self, amount: i32, max_hp: int) -> ObjectView {
        match self.fighter {
            None => self,
            Some(f) => {
                let raised = f.hp + amount;
                let floored = if raised < 0 { 0 } else { raised };
                let capped = if floored > max_hp { max_hp } else { floored };
                self.with_hp(capped as i32)
            },
        }
    }
}

impl ObjectView {
    /// The entity with `gain` added to its experience.
    pub open spec fn gained(self, gain: int) -> ObjectView {
        let f = self.fighter.unwrap();
        ObjectView { fighter: Some(Fighter { xp: (f.xp + gain) as i32, ..f }), ..self }
    }

    /// The entity with `xp` added to its experience, if there is any to add.
    pub open spec fn credited(self, xp: Option<i32>) -> ObjectView {
        match xp {
            Some(gain) => self.gained(gain as int),
            None => self,
        }
    }

    /// The piece of equipment marked as worn or not.
    pub open spec fn with_equipped(self, on: bool) -> ObjectView {
        ObjectView { equipment: Some(Equipment { equipped: on, ..self.equipment.unwrap() }), ..self }
    }

    /// Only an item that is a piece of equipment can be put on or taken off.
    pub open spec fn wearable(self) -> bool {
        self.item is Some && self.equipment is Some
    }

    /// The object after an attempt to put it on.
    pub open spec fn put_on(self) -> ObjectView {
        if self.wearable() {
            self.with_equipped(true)
        } else {
            self
        }
    }

    /// The log after an attempt to put the object on: a complaint if it
    /// cannot be worn, a notice if it was not worn before, nothing if it was.
    pub open spec fn put_on_log(self, log: Log) -> Log {
        if self.item is None {
            log.push(("Can't equip "@ + self.name + " because it's not an Item."@, red()))
        } else {
            match self.equipment {
                None => log.push(
                    ("Can't equip "@ + self.name + " because it's not an Equipment."@, red()),
                ),
                Some(e) => if e.equipped {
                    log
                } else {
                    log.push(
                        (
                            "Equipped "@ + self.name + " on "@ + e.slot.label() + "."@,
                            light_green(),
                        ),
                    )
                },
            }
        }
    }

    /// The object after an attempt to take it off.
    pub open spec fn taken_off(self) -> ObjectView {
        if self.wearable() {
            self.with_equipped(false)
        } else {
            self
        }
    }

    /// The log after an attempt to take the object off: a complaint if it
    /// cannot be worn, a notice if it was worn, nothing if it was not.
    pub open spec fn taken_off_log(self, log: Log) -> Log {
        if self.item is None {
            log.push(("Can't dequip "@ + self.name + " because it's not an Item."@, red()))
        } else {
            match self.equipment {
                None => log.push(
                    ("Can't dequip "@ + self.name + " because it's not an Equipment."@, red()),
                ),
                Some(e) => if e.equipped {
                    log.push(
                        (
                            "Dequipped "@ + self.name + " on "@ + e.slot.label() + "."@,
                            light_yellow(),
                        ),
                    )
                } else {
                    log
                },
            }
        }
    }
}

/// Whether an entity that blocks stands on `(x, y)`.
pub open spec fn occupied(objects: Seq<ObjectView>, x: int, y: int) -> bool {
    exists|i: int|
        0 <= i < objects.len() && (#[trigger] objects[i]).blocks && objects[i].x == x
            && objects[i].y == y
}

/// Whether nothing can move onto `(x, y)`: the tile is off the grid or
/// blocked, or an entity that blocks stands there.
pub open spec fn blocked_at(tiles: Seq<Seq<Tile>>, objects: Seq<ObjectView>, x: int, y: int) -> bool {
    !open_tile(tiles, x, y) || occupied(objects, x, y)
}

/// The damage of one blow: the attacker's power less the target's defense.
/// A blow that is not positive has no effect.
pub open spec fn blow(attacker: ObjectView, target: ObjectView, inventory: Seq<ObjectView>) -> int {
    attacker.power(inventory) - target.defense(inventory)
}

/// Whether a blow stays within what the numbers can hold: a blow that hurts
/// fits an `i32`, so do the hit points it leaves, and so does the attacker's
/// experience with the victim's added, where the victim dies. An attacker
/// that kills needs a fighter component to take the experience.
pub open spec fn blow_fits(attacker: ObjectView, target: ObjectView, inventory: Seq<ObjectView>) -> bool {
    let damage = blow(attacker, target, inventory);
    damage > 0 ==> {
        &&& damage <= i32::MAX
        &&& target.fighter is Some ==> fits_i32(target.hp_after(damage as i32))
        &&& target.bounty(damage as i32) matches Some(gain) ==> attacker.fighter matches Some(f)
            && fits_i32(f.xp + gain)
    }
}

/// The entities after `attacker` struck `target`.
pub open spec fn fight(
    objects: Seq<ObjectView>,
    attacker: int,
    target: int,
    inventory: Seq<ObjectView>,
) -> Seq<ObjectView> {
    let damage = blow(objects[attacker], objects[target], inventory);
    if damage > 0 {
        objects.update(target, objects[target].damaged(damage as i32)).update(
            attacker,
            objects[attacker].credited(objects[target].bounty(damage as i32)),
        )
    } else {
        objects
    }
}

/// The log after `attacker` struck `target`.
pub open spec fn fight_log(
    objects: Seq<ObjectView>,
    attacker: int,
    target: int,
    inventory: Seq<ObjectView>,
    log: Log,
) -> Log {
    let damage = blow(objects[attacker], objects[target], inventory);
    let said = log.push(blow_notice(objects[attacker], objects[target], damage));
    if damage > 0 {
        objects[target].damage_log(damage as i32, said)
    } else {
        said
    }
}

/// The index of the first `true` among `hits`.
pub open spec fn first_such(hits: Seq<bool>) -> Option<int>
    decreases hits.len(),
{
    if hits.len() == 0 {
        None
    } else {
        match first_such(hits.drop_last()) {
            Some(i) => Some(i),
            None => if hits.last() {
                Some(hits.len() - 1)
            } else {
                None
            },
        }
    }
}

/// `first_such` finds the first hit, and nothing where there is none.
pub proof fn lemma_first_such(hits: Seq<bool>)
    ensures
        match first_such(hits) {
            Some(i) => 0 <= i < hits.len() && hits[i] && forall|j: int| 0 <= j < i ==> !hits[j],
            None => forall|j: int| 0 <= j < hits.len() ==> !hits[j],
        },
    decreases hits.len(),
{
    if hits.len() > 0 {
        lemma_first_such(hits.drop_last());
        assert forall|j: int| 0 <= j < hits.len() - 1 implies hits[j] == hits.drop_last()[j] by {}
    }
}

/// An index that is the first hit is what `first_such` finds.
pub proof fn lemma_first_such_is(hits: Seq<bool>, found: Option<int>)
    requires
        match found {
            Some(i) => 0 <= i < hits.len() && hits[i] && forall|j: int| 0 <= j < i ==> !hits[j],
            None => forall|j: int| 0 <= j < hits.len() ==> !hits[j],
        },
    ensures
        first_such(hits) == found,
{
    lemma_first_such(hits);
}

/// For each entity, whether it is a fighter standing on `(x, y)`.
pub open spec fn fighters_at(objects: Seq<ObjectView>, x: int, y: int) -> Seq<bool> {
    Seq::new(objects.len(), |i: int| objects[i].fighter is Some && objects[i].x == x && objects[i].y == y)
}

/// The entities after number `id` tried to move by `(dx, dy)`: it moved
/// unless something was in the way.
pub open spec fn moved(
    tiles: Seq<Seq<Tile>>,
    objects: Seq<ObjectView>,
    id: int,
    dx: int,
    dy: int,
) -> Seq<ObjectView> {
    let x = objects[id].x + dx;
    let y = objects[id].y + dy;
    if blocked_at(tiles, objects, x, y) || !fits_i32(x) || !fits_i32(y) {
        objects
    } else {
        objects.update(id, ObjectView { x: x as i32, y: y as i32, ..objects[id] })
    }
}

/// -1, 0 or 1 as `n` is negative, zero or positive.
pub open spec fn sign(n: int) -> int {
    if n < 0 {
        -1
    } else if n == 0 {
        0
    } else {
        1
    }
}

/// One step in the direction of `(dx, dy)`: the vector scaled to length one,
/// each component rounded to the nearest whole number. A component rounds
/// away from zero when it is at least half the vector's length, that is when
/// three times its square is at least the other component's square.
pub open spec fn step_toward(dx: int, dy: int) -> (int, int) {
    (
        if 3 * dx * dx >= dy * dy {
            sign(dx)
        } else {
            0
        },
        if 3 * dy * dy >= dx * dx {
            sign(dy)
        } else {
            0
        },
    )
}

/// What the log says of a blow.
pub open spec fn blow_notice(attacker: ObjectView, target: ObjectView, damage: int) -> (
    Seq<char>,
    Color,
) {
    if damage > 0 {
        (
            attacker.name + " attacks "@ + target.name + " for "@ + decimal(damage)
                + " hit points."@,
            white(),
        )
    } else {
        (attacker.name + " attacks "@ + target.name + " but it has no effect!"@, white())
    }
}

/// However often an entity is healed, and by whatever amounts, its hit points
/// never exceed the most it can have; healing changes nothing else, so the
/// same holds after every further heal.
pub proof fn lemma_heal_capped(object: ObjectView, amount: i32, inventory: Seq<ObjectView>)
    requires
        object.fighter matches Some(f) ==> fits_i32(object.max_hp(inventory)),
    ensures
        ({
            let healed = object.healed(amount, object.max_hp(inventory));
            &&& healed.max_hp(inventory) == object.max_hp(inventory)
            &&& healed.fighter matches Some(f) ==> f.hp <= healed.max_hp(inventory)
            &&& healed.fighter matches Some(f) ==> (object.max_hp(inventory) >= 0 ==> f.hp >= 0)
            &&& healed == (ObjectView { fighter: healed.fighter, ..object })
        }),
{
}

/// A blow from an attacker whose power does not exceed the target's defense
/// changes nobody: the target keeps its hit points.
pub proof fn lemma_weak_blow(
    objects: Seq<ObjectView>,
    attacker: int,
    target: int,
    inventory: Seq<ObjectView>,
)
    requires
        objects[attacker].power(inventory) <= objects[target].defense(inventory),
    ensures
        fight(objects, attacker, target, inventory) == objects,
{
}

/// Whatever the blow, the target's hit points after it are what they were
/// less the damage that got through, and never more than before.
pub proof fn lemma_blow_only_hurts(
    objects: Seq<ObjectView>,
    attacker: int,
    target: int,
    inventory: Seq<ObjectView>,
)
    requires
        0 <= attacker < objects.len(),
        0 <= target < objects.len(),
        attacker != target,
        blow_fits(objects[attacker], objects[target], inventory),
    ensures
        ({
            let after = fight(objects, attacker, target, inventory)[target];
            objects[target].fighter is Some && after.fighter is Some ==> after.fighter.unwrap().hp
                <= objects[target].fighter.unwrap().hp
        }),
{
}

/// Whoever has no hit points left after taking damage is no longer alive.
pub proof fn lemma_damage_downs(object: ObjectView, damage: i32)
    requires
        object.fighter is Some ==> fits_i32(object.hp_after(damage)),
    ensures
        object.damaged(damage).fighter matches Some(f) ==> (f.hp <= 0 ==> !object.damaged(
            damage,
        ).alive),
        object.damaged(damage).fighter matches Some(f) ==> f.hp == object.hp_after(damage),
{
}

/// Who has died does not die again: damage to it sets no experience free,
/// leaves no word in the log and does not run the death transition anew. A
/// monster's remains do not change at all; of a dead player only the hit
/// points go on falling.
pub proof fn lemma_death_is_final(object: ObjectView, fatal: i32, later: i32, log: Log)
    requires
        object.dies_of(fatal),
    ensures
        !object.damaged(fatal).alive,
        object.damaged(fatal).bounty(later) is None,
        object.damaged(fatal).damage_log(later, log) == log,
        object.damaged(fatal).fighter is None ==> object.damaged(fatal).damaged(later)
            == object.damaged(fatal),
        object.damaged(fatal).fighter is Some ==> object.damaged(fatal).damaged(later)
            == object.damaged(fatal).with_hp(object.damaged(fatal).hp_after(later) as i32),
{
}

/// Damage to whoever is not alive, whatever brought that about, runs no
/// death transition: nothing but the hit points changes, no experience is
/// set free, and the log stays as it is.
pub proof fn lemma_dead_stay_dead(object: ObjectView, damage: i32, log: Log)
    requires
        !object.alive,
    ensures
        object.bounty(damage) is None,
        object.damage_log(damage, log) == log,
        object.damaged(damage) == if object.fighter is Some {
            object.with_hp(object.hp_after(damage) as i32)
        } else {
            object
        },
{
}

/// The three bonus totals of `pieces`: power, defense, hit points.
fn sum_bonuses(pieces: &Vec<Equipment>) -> (sums: (i128, i128, i128))
    ensures
        sums.0 == total_power_bonus(pieces@),
        sums.1 == total_defense_bonus(pieces@),
        sums.2 == total_max_hp_bonus(pieces@),
        -0x8000_0000_0000_0000_0000_0000 <= sums.0 <= 0x8000_0000_0000_0000_0000_0000,
        -0x8000_0000_0000_0000_0000_0000 <= sums.1 <= 0x8000_0000_0000_0000_0000_0000,
        -0x8000_0000_0000_0000_0000_0000 <= sums.2 <= 0x8000_0000_0000_0000_0000_0000,
{
    let mut power: i128 = 0;
    let mut defense: i128 = 0;
    let mut max_hp: i128 = 0;
    let mut i: usize = 0;
    while i < pieces.len()
        invariant
            i <= pieces@.len(),
            power == total_power_bonus(pieces@.take(i as int)),
            defense == total_defense_bonus(pieces@.take(i as int)),
            max_hp == total_max_hp_bonus(pieces@.take(i as int)),
            -0x8000_0000 * i <= power <= 0x8000_0000 * i,
            -0x8000_0000 * i <= defense <= 0x8000_0000 * i,
            -0x8000_0000 * i <= max_hp <= 0x8000_0000 * i,
        decreases pieces@.len() - i,
    {
        proof {
            assert(pieces@.take(i + 1).drop_last() =~= pieces@.take(i as int));
        }
        power = power + pieces[i].power_bonus as i128;
        defense = defense + pieces[i].defense_bonus as i128;
        max_hp = max_hp + pieces[i].max_hp_bonus as i128;
        i += 1;
    }
    proof {
        assert(pieces@.take(i as int) =~= pieces@);
        assert(i <= 0xffff_ffff_ffff_ffff);
    }
    (power, defense, max_hp)
}

impl GameObject {
    /// A lifeless object without any component.
    pub fn new(x: i32, y: i32, glyph: char, name: &str, color: Color, blocks: bool) -> (object:
        Self)
        ensures
            object@ == (ObjectView {
                x,
                y,
                glyph,
                name: name@,
                color,
                blocks,
                alive: false,
                fighter: None,
                ai: None,
                item: None,
                equipment: None,
                always_visible: false,
                level: 1,
            }),
    {
        GameObject {
            x,
            y,
            glyph,
            name: String::from_str(name),
            color,
            blocks,
            alive: false,
            fighter: None,
            ai: None,
            item: None,
            equipment: None,
            always_visible: false,
            level: 1,
        }
    }

    /// Where the object is.
    pub fn pos(&self) -> (p: (i32, i32))
        ensures
            p == (self.x, self.y),
    {
        (self.x, self.y)
    }

    /// Puts the object at `(x, y)`.
    pub fn set_pos(&mut self, x: i32, y: i32)
        ensures
            final(self)@ == (ObjectView { x, y, ..old(self)@ }),
    {
        self.x = x;
        self.y = y;
    }

    /// Square of the distance to the tile `(x, y)`.
    pub fn distance_sq(&self, x: i32, y: i32) -> (d: i128)
        ensures
            d == self@.distance_sq(x as int, y as int),
    {
        let dx = x as i128 - self.x as i128;
        let dy = y as i128 - self.y as i128;
        assert(0 <= dx * dx <= 0x1_0000_0000 * 0x1_0000_0000) by (nonlinear_arith)
            requires
                -0x1_0000_0000 <= dx <= 0x1_0000_0000,
        ;
        assert(0 <= dy * dy <= 0x1_0000_0000 * 0x1_0000_0000) by (nonlinear_arith)
            requires
                -0x1_0000_0000 <= dy <= 0x1_0000_0000,
        ;
        dx * dx + dy * dy
    }

    /// Square of the distance to `other`.
    pub fn distance_sq_to(&self, other: &GameObject) -> (d: i128)
        ensures
            d == self@.distance_sq(other.x as int, other.y as int),
    {
        self.distance_sq(other.x, other.y)
    }

    /// Whether this is the player.
    pub fn is_player(&self) -> (b: bool)
        ensures
            b == self@.is_player(),
    {
        let player = String::from_str("player");
        self.name == player
    }

    /// Applies `damage` and, where that leaves one who was alive with no hit
    /// points, the death transition. Returns the experience the death sets
    /// free.
    pub fn take_damage(&mut self, damage: i32, game: &mut Game) -> (xp: Option<i32>)
        requires
            old(self).fighter is Some ==> fits_i32(old(self)@.hp_after(damage)),
        ensures
            final(self)@ == old(self)@.damaged(damage),
            xp == old(self)@.bounty(damage),
            final(game).messages@ == old(self)@.damage_log(damage, old(game).messages@),
            final(game).only_log_differs(*old(game)),
    {
        match self.fighter {
            None => None,
            Some(before) => {
                let mut fighter = before;
                if damage > 0 {
                    fighter.hp = fighter.hp - damage;
                }
                self.fighter = Some(fighter);
                if fighter.hp <= 0 && self.alive {
                    self.alive = false;
                    fighter.on_death.callback(self, game);
                    assert(self@ =~= old(self)@.damaged(damage));
                    Some(fighter.xp)
                } else {
                    None
                }
            },
        }
    }

    /// Strikes `target`. A blow that gets through the target's defense hurts
    /// it; if it dies, its experience goes to the attacker.
    pub fn attack(&mut self, target: &mut GameObject, game: &mut Game)
        requires
            blow_fits(old(self)@, old(target)@, old(game).carried()),
        ensures
            ({
                let damage = blow(old(self)@, old(target)@, old(game).carried());
                let said = old(game).messages@.push(blow_notice(old(self)@, old(target)@, damage));
                if damage > 0 {
                    &&& final(target)@ == old(target)@.damaged(damage as i32)
                    &&& final(self)@ == old(self)@.credited(old(target)@.bounty(damage as i32))
                    &&& final(game).messages@ == old(target)@.damage_log(damage as i32, said)
                } else {
                    &&& final(target)@ == old(target)@
                    &&& final(self)@ == old(self)@
                    &&& final(game).messages@ == said
                }
            }),
            final(game).only_log_differs(*old(game)),
    {
        let damage = self.power_wide(game) - target.defense_wide(game);
        if damage > 0 {
            let damage = damage as i32;
            let number = int_to_string(damage as i64);
            let notice = join5(
                self.name.as_str(),
                " attacks ",
                target.name.as_str(),
                " for ",
                number.as_str(),
            );
            let notice = join2(notice.as_str(), " hit points.");
            assert(notice@ =~= blow_notice(old(self)@, old(target)@, damage as int).0);
            game.messages.add(notice.as_str(), white());
            match target.take_damage(damage, game) {
                Some(xp) => {
                    match self.fighter {
                        Some(before) => {
                            let mut fighter = before;
                            fighter.xp = fighter.xp + xp;
                            self.fighter = Some(fighter);
                        },
                        None => {},
                    }
                },
                None => {},
            }
        } else {
            let notice = join4(
                self.name.as_str(),
                " attacks ",
                target.name.as_str(),
                " but it has no effect!",
            );
            assert(notice@ =~= blow_notice(old(self)@, old(target)@, damage as int).0);
            game.messages.add(notice.as_str(), white());
        }
    }

    /// Restores `amount` hit points, without going over the maximum or under
    /// zero.
    pub fn heal(&mut self, amount: i32, game: &Game)
        requires
            old(self).fighter matches Some(f) ==> fits_i32(f.hp + amount) && fits_i32(
                old(self)@.max_hp(game.carried()),
            ),
        ensures
            final(self)@ == old(self)@.healed(amount, old(self)@.max_hp(game.carried())),
            final(self).fighter matches Some(f) ==> f.hp <= final(self)@.max_hp(game.carried()),
    {
        let max_hp = self.max_hp_wide(game);
        match self.fighter {
            Some(before) => {
                let mut fighter = before;
                fighter.hp = fighter.hp + amount;
                if fighter.hp < 0 {
                    fighter.hp = 0;
                }
                if fighter.hp as i128 > max_hp {
                    fighter.hp = max_hp as i32;
                }
                self.fighter = Some(fighter);
            },
            None => {},
        }
    }

    /// Puts the object on, if it is an item that can be worn.
    pub fn equip(&mut self, messages: &mut Messages)
        ensures
            final(self)@ == old(self)@.put_on(),
            final(messages)@ == old(self)@.put_on_log(old(messages)@),
    {
        if self.item.is_none() {
            let notice = join3("Can't equip ", self.name.as_str(), " because it's not an Item.");
            messages.add(notice.as_str(), red());
            return ;
        }
        match self.equipment {
            Some(before) => {
                if !before.equipped {
                    let mut equipment = before;
                    equipment.equipped = true;
                    self.equipment = Some(equipment);
                    let notice = join5(
                        "Equipped ",
                        self.name.as_str(),
                        " on ",
                        equipment.slot.name(),
                        ".",
                    );
                    messages.add(notice.as_str(), light_green());
                }
                assert(self@ =~= old(self)@.put_on());
            },
            None => {
                let notice = join3(
                    "Can't equip ",
                    self.name.as_str(),
                    " because it's not an Equipment.",
                );
                messages.add(notice.as_str(), red());
            },
        }
    }

    /// Takes the object off, if it is an item that can be worn.
    pub fn dequip(&mut self, messages: &mut Messages)
        ensures
            final(self)@ == old(self)@.taken_off(),
            final(messages)@ == old(self)@.taken_off_log(old(messages)@),
    {
        if self.item.is_none() {
            let notice = join3("Can't dequip ", self.name.as_str(), " because it's not an Item.");
            messages.add(notice.as_str(), red());
            return ;
        }
        match self.equipment {
            Some(before) => {
                if before.equipped {
                    let mut equipment = before;
                    equipment.equipped = false;
                    self.equipment = Some(equipment);
                    let notice = join5(
                        "Dequipped ",
                        self.name.as_str(),
                        " on ",
                        equipment.slot.name(),
                        ".",
                    );
                    messages.add(notice.as_str(), light_yellow());
                }
                assert(self@ =~= old(self)@.taken_off());
            },
            None => {
                let notice = join3(
                    "Can't dequip ",
                    self.name.as_str(),
                    " because it's not an Equipment.",
                );
                messages.add(notice.as_str(), red());
            },
        }
    }

    /// The equipment that lends its bonuses to this entity.
    pub fn get_all_equipped(&self, game: &Game) -> (pieces: Vec<Equipment>)
        ensures
            pieces@ == self@.all_equipped(game.carried()),
    {
        let mut pieces: Vec<Equipment> = Vec::new();
        if self.is_player() {
            let mut i: usize = 0;
            while i < game.inventory.len()
                invariant
                    i <= game.inventory@.len(),
                    pieces@ == worn(game.carried().take(i as int)),
                decreases game.inventory@.len() - i,
            {
                proof {
                    let upto = game.carried().take(i + 1);
                    assert(upto.drop_last() =~= game.carried().take(i as int));
                    assert(upto.last() == game.inventory@[i as int]@);
                }
                match game.inventory[i].equipment {
                    Some(e) => {
                        if e.equipped {
                            pieces.push(e);
                        }
                    },
                    None => {},
                }
                i += 1;
            }
            proof {
                assert(game.carried().take(i as int) =~= game.carried());
            }
        }
        pieces
    }

    pub(crate) fn power_wide(&self, game: &Game) -> (power: i128)
        ensures
            power == self@.power(game.carried()),
            -0x1_0000_0000_0000_0000_0000_0000 <= power <= 0x1_0000_0000_0000_0000_0000_0000,
    {
        let base: i128 = match self.fighter {
            Some(f) => f.base_power as i128,
            None => 0,
        };
        let pieces = self.get_all_equipped(game);
        base + sum_bonuses(&pieces).0
    }

    pub(crate) fn defense_wide(&self, game: &Game) -> (defense: i128)
        ensures
            defense == self@.defense(game.carried()),
            -0x1_0000_0000_0000_0000_0000_0000 <= defense <= 0x1_0000_0000_0000_0000_0000_0000,
    {
        let base: i128 = match self.fighter {
            Some(f) => f.base_defense as i128,
            None => 0,
        };
        let pieces = self.get_all_equipped(game);
        base + sum_bonuses(&pieces).1
    }

    pub(crate) fn max_hp_wide(&self, game: &Game) -> (max_hp: i128)
        ensures
            max_hp == self@.max_hp(game.carried()),
            -0x1_0000_0000_0000_0000_0000_0000 <= max_hp <= 0x1_0000_0000_0000_0000_0000_0000,
    {
        let base: i128 = match self.fighter {
            Some(f) => f.base_max_hp as i128,
            None => 0,
        };
        let pieces = self.get_all_equipped(game);
        base + sum_bonuses(&pieces).2
    }

    /// Attack strength: the base value plus what the equipment lends.
    pub fn power(&self, game: &Game) -> (power: i32)
        requires
            fits_i32(self@.power(game.carried())),
        ensures
            power == self@.power(game.carried()),
    {
        self.power_wide(game) as i32
    }

    /// Armour: the base value plus what the equipment lends.
    pub fn defense(&self, game: &Game) -> (defense: i32)
        requires
            fits_i32(self@.defense(game.carried())),
        ensures
            defense == self@.defense(game.carried()),
    {
        self.defense_wide(game) as i32
    }

    /// Most hit points the entity can have: the base value plus what the
    /// equipment lends.
    pub fn max_hp(&self, game: &Game) -> (max_hp: i32)
        requires
            fits_i32(self@.max_hp(game.carried())),
        ensures
            max_hp == self@.max_hp(game.carried()),
    {
        self.max_hp_wide(game) as i32
    }
}

/// The first fighter standing on `(x, y)`, if any.
pub fn find_fighter_at(objects: &[GameObject], x: i32, y: i32) -> (found: Option<usize>)
    ensures
        match found {
            Some(i) => first_such(fighters_at(views(objects@), x as int, y as int)) == Some(i as int),
            None => first_such(fighters_at(views(objects@), x as int, y as int)) is None,
        },
        found matches Some(i) ==> i < objects@.len(),
{
    let ghost hits = fighters_at(views(objects@), x as int, y as int);
    let mut i: usize = 0;
    while i < objects.len()
        invariant
            i <= objects@.len(),
            hits == fighters_at(views(objects@), x as int, y as int),
            forall|j: int| 0 <= j < i ==> !hits[j],
        decreases objects@.len() - i,
    {
        if objects[i].fighter.is_some() && objects[i].x == x && objects[i].y == y {
            proof {
                lemma_first_such_is(hits, Some(i as int));
            }
            return Some(i);
        }
        i += 1;
    }
    proof {
        lemma_first_such_is(hits, None);
    }
    None
}

/// Moves entity number `id` by `(dx, dy)`, unless something is in the way.
pub fn move_by(id: usize, dx: i32, dy: i32, map: &Grid, objects: &mut [GameObject])
    requires
        id < old(objects)@.len(),
    ensures
        final(objects)@.len() == old(objects)@.len(),
        views(final(objects)@) == moved(
            tiles(*map),
            views(old(objects)@),
            id as int,
            dx as int,
            dy as int,
        ),
{
    let x = objects[id].x as i64 + dx as i64;
    let y = objects[id].y as i64 + dy as i64;
    if x < i32::MIN as i64 || x > i32::MAX as i64 || y < i32::MIN as i64 || y > i32::MAX as i64 {
        return ;
    }
    if !is_blocked(x as i32, y as i32, map, objects) {
        objects[id].set_pos(x as i32, y as i32);
        assert(views(objects@) =~= moved(
            tiles(*map),
            views(old(objects)@),
            id as int,
            dx as int,
            dy as int,
        ));
    }
}

/// -1, 0 or 1 as `n` is negative, zero or positive.
fn sign_of(n: i128) -> (s: i32)
    ensures
        s == sign(n as int),
{
    if n < 0 {
        -1
    } else if n == 0 {
        0
    } else {
        1
    }
}

/// Moves entity number `id` one step toward `(target_x, target_y)`, unless
/// something is in the way.
pub fn move_towards(id: usize, target_x: i32, target_y: i32, map: &Grid, objects: &mut [GameObject])
    requires
        id < old(objects)@.len(),
    ensures
        final(objects)@.len() == old(objects)@.len(),
        ({
            let step = step_toward(
                target_x - old(objects)@[id as int].x,
                target_y - old(objects)@[id as int].y,
            );
            views(final(objects)@) == moved(
                tiles(*map),
                views(old(objects)@),
                id as int,
                step.0,
                step.1,
            )
        }),
{
    let dx = target_x as i128 - objects[id].x as i128;
    let dy = target_y as i128 - objects[id].y as i128;
    assert(0 <= dx * dx <= 0x1_0000_0000 * 0x1_0000_0000) by (nonlinear_arith)
        requires
            -0x1_0000_0000 <= dx <= 0x1_0000_0000,
    ;
    assert(0 <= dy * dy <= 0x1_0000_0000 * 0x1_0000_0000) by (nonlinear_arith)
        requires
            -0x1_0000_0000 <= dy <= 0x1_0000_0000,
    ;
    let xx = dx * dx;
    let yy = dy * dy;
    assert(3 * dx * dx == 3 * xx) by (nonlinear_arith)
        requires
            xx == dx * dx,
    ;
    assert(3 * dy * dy == 3 * yy) by (nonlinear_arith)
        requires
            yy == dy * dy,
    ;
    let step_x = if 3 * xx >= yy {
        sign_of(dx)
    } else {
        0
    };
    let step_y = if 3 * yy >= xx {
        sign_of(dy)
    } else {
        0
    };
    move_by(id, step_x, step_y, map, objects);
}

/// Hands out two of `items` at once, to change both.
pub fn mut_two<T>(first_index: usize, second_index: usize, items: &mut [T]) -> (pair: (
    &mut T,
    &mut T,
))
    requires
        first_index != second_index,
        first_index < old(items)@.len(),
        second_index < old(items)@.len(),
    ensures
        *pair.0 == old(items)@[first_index as int],
        *pair.1 == old(items)@[second_index as int],
        final(items)@ == old(items)@.update(first_index as int, *final(pair.0)).update(
            second_index as int,
            *final(pair.1),
        ),
{
    let split_at_index = if first_index < second_index {
        second_index
    } else {
        first_index
    };
    let (first_slice, second_slice) = items.split_at_mut(split_at_index);
    if first_index < second_index {
        (&mut first_slice[first_index], &mut second_slice[0])
    } else {
        (&mut second_slice[0], &mut first_slice[second_index])
    }
}

/// Lets entity number `attacker` strike entity number `target`.
pub fn attack_between(attacker: usize, target: usize, game: &mut Game, objects: &mut [GameObject])
    requires
        attacker != target,
        attacker < old(objects)@.len(),
        target < old(objects)@.len(),
        blow_fits(
            old(objects)@[attacker as int]@,
            old(objects)@[target as int]@,
            old(game).carried(),
        ),
    ensures
        final(objects)@.len() == old(objects)@.len(),
        views(final(objects)@) == fight(
            views(old(objects)@),
            attacker as int,
            target as int,
            old(game).carried(),
        ),
        final(game).messages@ == fight_log(
            views(old(objects)@),
            attacker as int,
            target as int,
            old(game).carried(),
            old(game).messages@,
        ),
        final(game).only_log_differs(*old(game)),
{
    let (striker, victim) = mut_two(attacker, target, objects);
    striker.attack(victim, game);
    assert(views(objects@) =~= fight(
        views(old(objects)@),
        attacker as int,
        target as int,
        old(game).carried(),
    ));
}

/// The player's move: a blow at the fighter that stands in the way, else a
/// step.
pub fn player_move_or_attack(dx: i32, dy: i32, game: &mut Game, objects: &mut [GameObject])
    requires
        old(objects)@.len() > 0,
        ({
            let player = old(objects)@[0]@;
            match first_such(fighters_at(views(old(objects)@), player.x + dx, player.y + dy)) {
                Some(target) => target != 0 && blow_fits(
                    player,
                    old(objects)@[target]@,
                    old(game).carried(),
                ),
                None => true,
            }
        }),
    ensures
        final(objects)@.len() == old(objects)@.len(),
        ({
            let before = views(old(objects)@);
            let carried = old(game).carried();
            match first_such(fighters_at(before, before[0].x + dx, before[0].y + dy)) {
                Some(target) => {
                    &&& views(final(objects)@) == fight(before, 0, target, carried)
                    &&& final(game).messages@ == fight_log(
                        before,
                        0,
                        target,
                        carried,
                        old(game).messages@,
                    )
                },
                None => {
                    &&& views(final(objects)@) == moved(
                        old(game).grid(),
                        before,
                        0,
                        dx as int,
                        dy as int,
                    )
                    &&& final(game).messages@ == old(game).messages@
                },
            }
        }),
        final(game).only_log_differs(*old(game)),
{
    let x = objects[PLAYER].x as i64 + dx as i64;
    let y = objects[PLAYER].y as i64 + dy as i64;
    let ghost hits = fighters_at(views(objects@), x as int, y as int);
    let target_id = if x < i32::MIN as i64 || x > i32::MAX as i64 || y < i32::MIN as i64 || y
        > i32::MAX as i64 {
        proof {
            lemma_first_such_is(hits, None);
        }
        None
    } else {
        find_fighter_at(objects, x as i32, y as i32)
    };
    match target_id {
        Some(target_id) => {
            attack_between(PLAYER, target_id, game, objects);
        },
        None => {
            move_by(PLAYER, dx, dy, &game.game_map, objects);
        },
    }
}

/// Whether nothing can move onto `(x, y)`.
pub fn is_blocked(x: i32, y: i32, map: &Grid, objects: &[GameObject]) -> (b: bool)
    ensures
        b == blocked_at(tiles(*map), views(objects@), x as int, y as int),
{
    if x < 0 || y < 0 || x as usize >= map.len() {
        return true;
    }
    if y as usize >= map[x as usize].len() {
        return true;
    }
    if map[x as usize][y as usize].blocked {
        return true;
    }
    let mut i: usize = 0;
    while i < objects.len()
        invariant
            i <= objects@.len(),
            forall|j: int|
                0 <= j < i ==> !((#[trigger] views(objects@)[j]).blocks && views(objects@)[j].x == x
                    && views(objects@)[j].y == y),
        decreases objects@.len() - i,
    {
        if objects[i].blocks && objects[i].x == x && objects[i].y == y {
            assert(views(objects@)[i as int].blocks);
            return true;
        }
        i += 1;
    }
    false
}

impl DeathCallback {
    /// Runs the death transition on `object`.
    fn callback(self, object: &mut GameObject, game: &mut Game)
        requires
            old(object).fighter matches Some(f) && f.on_death == self,
        ensures
            final(object)@ == (ObjectView { alive: old(object).alive, ..old(object)@.dead() }),
            final(game).messages@ == old(game).messages@.push(old(object)@.death_notice()),
            final(game).only_log_differs(*old(game)),
    {
        match self {
            DeathCallback::Player => player_death(object, game),
            DeathCallback::Monster => monster_death(object, game),
        }
    }
}

/// The player's death: the game goes on with a corpse for a player.
fn player_death(player: &mut GameObject, game: &mut Game)
    ensures
        final(player)@ == (ObjectView { glyph: '%', color: dark_red(), ..old(player)@ }),
        final(game).messages@ == old(game).messages@.push(("You died!"@, red())),
        final(game).only_log_differs(*old(game)),
{
    game.messages.add("You died!", red());
    player.glyph = '%';
    player.color = dark_red();
}

/// A monster's death: what is left is scenery that neither fights, acts nor
/// stands in the way.
fn monster_death(monster: &mut GameObject, game: &mut Game)
    ensures
        final(monster)@ == (ObjectView {
            glyph: '%',
            color: dark_red(),
            blocks: false,
            fighter: None,
            ai: None,
            name: "remains of "@ + old(monster).name@,
            ..old(monster)@
        }),
        final(game).messages@ == old(game).messages@.push(
            (old(monster).name@ + " Is dead!"@, orange()),
        ),
        final(game).only_log_differs(*old(game)),
{
    let notice = join2(monster.name.as_str(), " Is dead!");
    game.messages.add(notice.as_str(), orange());
    monster.glyph = '%';
    monster.color = dark_red();
    monster.blocks = false;
    monster.fighter = None;
    monster.ai = None;
    monster.name = join2("remains of ", monster.name.as_str());
}

} // verus!
