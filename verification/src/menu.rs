//! What the menus offer and what a key press chooses from them. Showing a
//! menu and waiting for the key is up to the program.

use crate::fov::FovMap;
use crate::game_object::{views, GameObject, ObjectView};
use crate::text::{decimal, int_to_string, join2, join3};
use vstd::prelude::*;
use vstd::string::*;

verus! {

/// Width of the inventory menu, in cells.
pub const INVENTORY_MENU_WIDTH: i32 = 50;

/// Width of the level-up menu, in cells.
pub const LEVEL_SCREEN_WIDTH: i32 = 40;

/// Width of the character sheet, in cells.
pub const CHARACTER_SCREEN_WIDTH: i32 = 30;

/// Most options a menu can offer: one per letter.
pub const MENU_SIZE: usize = 26;

/// The place of a letter in the alphabet, from 0, whether the letter is
/// small or capital; nothing for what is no letter from a to z.
pub open spec fn letter_index(key: char) -> Option<int> {
    if 97 <= key as u32 <= 122 {
        Some(key as u32 - 97)
    } else if 65 <= key as u32 <= 90 {
        Some(key as u32 - 65)
    } else {
        None
    }
}

/// The option that `key` chooses from a menu of `options` entries, which are
/// lettered from a on.
pub open spec fn chosen(key: char, options: int) -> Option<usize> {
    match letter_index(key) {
        Some(i) => if i < options {
            Some(i as usize)
        } else {
            None
        },
        None => None,
    }
}

/// The option that `key` chooses from a menu of `options` entries.
pub fn menu_choice(key: char, options: usize) -> (choice: Option<usize>)
    requires
        options <= MENU_SIZE,
    ensures
        choice == chosen(key, options as int),
{
    let code = key as u32;
    let index = if 97 <= code && code <= 122 {
        (code - 97) as usize
    } else if 65 <= code && code <= 90 {
        (code - 65) as usize
    } else {
        return None;
    };
    if index < options {
        Some(index)
    } else {
        None
    }
}

/// What the inventory menu lists: the names of what the player carries, or
/// a note that there is nothing.
pub open spec fn inventory_lines(inventory: Seq<ObjectView>) -> Seq<Seq<char>> {
    if inventory.len() == 0 {
        seq!["Inventory is empty."@]
    } else {
        Seq::new(inventory.len(), |i: int| inventory[i].name)
    }
}

/// The lines of `options` as their characters.
pub open spec fn lines(options: Seq<String>) -> Seq<Seq<char>> {
    Seq::new(options.len(), |i: int| options[i]@)
}

/// What the inventory menu lists.
pub fn inventory_options(inventory: &[GameObject]) -> (options: Vec<String>)
    ensures
        lines(options@) == inventory_lines(views(inventory@)),
{
    let mut options: Vec<String> = Vec::new();
    if inventory.len() == 0 {
        options.push(String::from_str("Inventory is empty."));
        assert(lines(options@) =~= inventory_lines(views(inventory@)));
    } else {
        let mut i: usize = 0;
        while i < inventory.len()
            invariant
                i <= inventory@.len(),
                options@.len() == i,
                forall|j: int| 0 <= j < i ==> (#[trigger] options@[j])@ == inventory@[j].name@,
            decreases inventory@.len() - i,
        {
            options.push(inventory[i].name.clone());
            i += 1;
        }
        assert(lines(options@) =~= inventory_lines(views(inventory@)));
    }
    options
}

/// The inventory entry that `key` chooses from the inventory menu; none from
/// an empty inventory.
pub fn inventory_choice(key: char, inventory: &[GameObject]) -> (choice: Option<usize>)
    requires
        inventory@.len() <= MENU_SIZE,
    ensures
        choice == if inventory@.len() > 0 {
            chosen(key, inventory@.len() as int)
        } else {
            None
        },
{
    if inventory.len() > 0 {
        menu_choice(key, inventory.len())
    } else {
        None
    }
}

/// What the level-up menu offers to a player with the fighter `(max_hp,
/// power, defense)`.
pub open spec fn level_up_lines(max_hp: int, power: int, defense: int) -> Seq<Seq<char>> {
    seq![
        "Constitution (+20 HP, from "@ + decimal(max_hp) + ")"@,
        "Strength (+1 attack, from "@ + decimal(power) + ")"@,
        "Agility (+1 defense, from "@ + decimal(defense) + ")"@,
    ]
}

/// What the level-up menu offers.
pub fn level_up_options(player: &GameObject) -> (options: Vec<String>)
    requires
        player.fighter is Some,
    ensures
        lines(options@) == level_up_lines(
            player.fighter.unwrap().base_max_hp as int,
            player.fighter.unwrap().base_power as int,
            player.fighter.unwrap().base_defense as int,
        ),
{
    let mut options: Vec<String> = Vec::new();
    match player.fighter {
        Some(fighter) => {
            let max_hp = int_to_string(fighter.base_max_hp as i64);
            let power = int_to_string(fighter.base_power as i64);
            let defense = int_to_string(fighter.base_defense as i64);
            options.push(join3("Constitution (+20 HP, from ", max_hp.as_str(), ")"));
            options.push(join3("Strength (+1 attack, from ", power.as_str(), ")"));
            options.push(join3("Agility (+1 defense, from ", defense.as_str(), ")"));
            assert(lines(options@) =~= level_up_lines(
                fighter.base_max_hp as int,
                fighter.base_power as int,
                fighter.base_defense as int,
            ));
        },
        None => {},
    }
    options
}

/// What the character sheet says.
pub open spec fn character_sheet(player: ObjectView, base: int, factor: int) -> Seq<char> {
    let fighter = player.fighter.unwrap();
    "Character information\n            \nLevel: "@ + decimal(player.level as int)
        + "\nExperience: "@ + decimal(fighter.xp as int) + "\nExperience to level up: "@ + decimal(
        base + player.level * factor,
    ) + "\n\nMaximum HP: "@ + decimal(fighter.base_max_hp as int) + "\nAttack: "@ + decimal(
        fighter.base_power as int,
    ) + "\nDefense: "@ + decimal(fighter.base_defense as int)
}

/// What the character sheet says; nothing of who cannot fight.
pub fn character_information(player: &GameObject, base: i32, factor: i32) -> (sheet: Option<String>)
    ensures
        match sheet {
            Some(text) => player.fighter is Some && text@ == character_sheet(
                player@,
                base as int,
                factor as int,
            ),
            None => player.fighter is None,
        },
{
    match player.fighter {
        Some(fighter) => {
            assert(-0x8000_0000 * 0x8000_0000 <= player.level * factor <= 0x8000_0000 * 0x8000_0000)
                by (nonlinear_arith)
                requires
                    -0x8000_0000 <= player.level <= 0x8000_0000,
                    -0x8000_0000 <= factor <= 0x8000_0000,
            ;
            let level_up_xp = base as i64 + player.level as i64 * factor as i64;
            let mut text = join2(
                "Character information\n            \nLevel: ",
                int_to_string(player.level as i64).as_str(),
            );
            text.append("\nExperience: ");
            text.append(int_to_string(fighter.xp as i64).as_str());
            text.append("\nExperience to level up: ");
            text.append(int_to_string(level_up_xp).as_str());
            text.append("\n\nMaximum HP: ");
            text.append(int_to_string(fighter.base_max_hp as i64).as_str());
            text.append("\nAttack: ");
            text.append(int_to_string(fighter.base_power as i64).as_str());
            text.append("\nDefense: ");
            text.append(int_to_string(fighter.base_defense as i64).as_str());
            Some(text)
        },
        None => None,
    }
}

/// The names of the first `n` entities that stand on `(x, y)` in view.
pub open spec fn names_at(objects: Seq<ObjectView>, fov: FovMap, x: int, y: int, n: int) -> Seq<
    Seq<char>,
>
    decreases n,
{
    if n <= 0 {
        Seq::empty()
    } else {
        let before = names_at(objects, fov, x, y, n - 1);
        let object = objects[n - 1];
        if object.x == x && object.y == y && fov.sees(x, y) {
            before.push(object.name)
        } else {
            before
        }
    }
}

/// `names` in a row, with `separator` between each two.
pub open spec fn joined(names: Seq<Seq<char>>, separator: Seq<char>) -> Seq<char>
    decreases names.len(),
{
    if names.len() == 0 {
        Seq::empty()
    } else if names.len() == 1 {
        names[0]
    } else {
        joined(names.drop_last(), separator) + separator + names.last()
    }
}

/// The names of the entities that stand on `(x, y)` in view, with commas
/// between them.
pub fn get_names_under_mouse(x: i32, y: i32, objects: &[GameObject], fov: &FovMap) -> (names: String)
    ensures
        names@ == joined(
            names_at(views(objects@), *fov, x as int, y as int, objects@.len() as int),
            ", "@,
        ),
{
    let mut names = String::new();
    let mut any = false;
    let mut i: usize = 0;
    while i < objects.len()
        invariant
            i <= objects@.len(),
            any == (names_at(views(objects@), *fov, x as int, y as int, i as int).len() > 0),
            names@ == joined(names_at(views(objects@), *fov, x as int, y as int, i as int), ", "@),
        decreases objects@.len() - i,
    {
        let ghost before = names_at(views(objects@), *fov, x as int, y as int, i as int);
        if objects[i].x == x && objects[i].y == y && fov.is_in_fov(objects[i].x, objects[i].y) {
            if any {
                names.append(", ");
            }
            names.append(objects[i].name.as_str());
            any = true;
            proof {
                let after = before.push(objects@[i as int]@.name);
                assert(after.drop_last() =~= before);
                assert(names@ =~= joined(after, ", "@));
            }
        }
        i += 1;
    }
    names
}

} // verus!
