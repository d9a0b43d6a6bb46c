use roguelike::colors::{green, light_blue, light_cyan, light_green, light_violet, orange, red, white, yellow};
use roguelike::equipment::{get_equipped_in_slot, Equipment, Slot};
use roguelike::fov::FovMap;
use roguelike::game::Game;
use roguelike::game_object::{
    Ai, DeathCallback, Fighter, GameObject, Item, CONFUSE_NUM_TURNS, FIREBALL_DAMAGE,
    HEAL_AMOUNT, LIGHTNING_DAMAGE, PLAYER,
};
use roguelike::inventory::{
    cast_confuse, cast_fireball, cast_heal, cast_lightning, drop_item, pick_item_up,
    toggle_equipment, use_item, UseResult, INVENTORY_SIZE,
};
use roguelike::map::{create_room, Grid, Rect, Tile, MAP_HEIGHT, MAP_WIDTH};
use roguelike::panel::Messages;
use roguelike::spawn::item_object;

fn one_room() -> Grid {
    let mut map = vec![vec![Tile::wall(); MAP_HEIGHT as usize]; MAP_WIDTH as usize];
    create_room(Rect::new(10, 10, 20, 20), &mut map);
    map
}

fn empty_game() -> Game {
    Game { game_map: one_room(), messages: Messages::new(), inventory: vec![], dungeon_level: 1 }
}

fn all_in_view() -> FovMap {
    let mut fov = FovMap::new(MAP_WIDTH as usize, MAP_HEIGHT as usize);
    for x in 0..MAP_WIDTH {
        for y in 0..MAP_HEIGHT {
            fov.set(x, y, true);
        }
    }
    fov
}

fn player(x: i32, y: i32) -> GameObject {
    let mut player = GameObject::new(x, y, '@', "player", white(), true);
    player.alive = true;
    player.fighter = Some(Fighter {
        hp: 100,
        base_max_hp: 100,
        base_defense: 1,
        base_power: 4,
        xp: 0,
        on_death: DeathCallback::Player,
    });
    player
}

fn monster(name: &str, x: i32, y: i32, hp: i32, xp: i32) -> GameObject {
    let mut monster = GameObject::new(x, y, 'o', name, white(), true);
    monster.alive = true;
    monster.fighter = Some(Fighter {
        hp,
        base_max_hp: hp,
        base_defense: 0,
        base_power: 3,
        xp,
        on_death: DeathCallback::Monster,
    });
    monster.ai = Some(Ai::Basic);
    monster
}

fn gear(name: &str, slot: Slot, equipped: bool) -> GameObject {
    let mut gear = GameObject::new(0, 0, '/', name, white(), false);
    gear.item = Some(Item::Sword);
    gear.equipment =
        Some(Equipment { slot, equipped, power_bonus: 3, defense_bonus: 0, max_hp_bonus: 0 });
    gear
}

fn log_of(game: &Game) -> Vec<String> {
    (0..game.messages.len()).map(|i| game.messages.get(i).0.to_string()).collect()
}

fn worn_per_slot(game: &Game) -> [usize; 3] {
    let mut count = [0; 3];
    for item in game.inventory.iter() {
        if let Some(e) = item.equipment {
            if e.equipped {
                let slot = match e.slot {
                    Slot::LeftHand => 0,
                    Slot::RightHand => 1,
                    Slot::Head => 2,
                };
                count[slot] += 1;
            }
        }
    }
    count
}

#[test]
fn a_full_inventory_takes_nothing_more() {
    let mut game = empty_game();
    for _ in 0..INVENTORY_SIZE {
        game.inventory.push(item_object(Item::Heal, 0, 0));
    }
    assert_eq!(game.inventory.len(), 26);
    let mut objects = vec![player(12, 12), item_object(Item::Fireball, 12, 12)];
    pick_item_up(1, &mut game, &mut objects);
    assert_eq!(game.inventory.len(), 26);
    assert_eq!(objects.len(), 2);
    assert_eq!(objects[1].name, "scroll of fireball");
    assert_eq!(objects[1].pos(), (12, 12));
    assert_eq!(log_of(&game), vec!["Your inventory is full, cannot pick up scroll of fireball."]);
    assert!(game.messages.get(0).0.contains("inventory is full"));
    assert_eq!(game.messages.get(0).1, red());
}

#[test]
fn picking_up_moves_the_item_into_the_inventory() {
    let mut game = empty_game();
    let mut objects = vec![
        player(12, 12),
        item_object(Item::Heal, 12, 12),
        monster("orc", 15, 15, 10, 35),
        item_object(Item::Confuse, 13, 13),
    ];
    pick_item_up(1, &mut game, &mut objects);
    assert_eq!(objects.len(), 3);
    assert_eq!(objects[0].name, "player");
    assert_eq!(objects[1].name, "scroll of confusion");
    assert_eq!(objects[2].name, "orc");
    assert_eq!(game.inventory.len(), 1);
    assert_eq!(game.inventory[0].name, "healing potion");
    assert_eq!(log_of(&game), vec!["You picked up a healing potion!"]);
    assert_eq!(game.messages.get(0).1, green());
    for _ in 0..24 {
        game.inventory.push(item_object(Item::Heal, 0, 0));
    }
    pick_item_up(1, &mut game, &mut objects);
    assert_eq!(game.inventory.len(), 26);
    assert_eq!(game.inventory[25].name, "scroll of confusion");
    assert_eq!(objects.len(), 2);
}

#[test]
fn equipment_is_put_on_when_its_slot_is_free() {
    let mut game = empty_game();
    let mut objects = vec![
        player(12, 12),
        gear("sword", Slot::RightHand, false),
        gear("axe", Slot::RightHand, false),
        gear("buckler", Slot::LeftHand, false),
    ];
    pick_item_up(1, &mut game, &mut objects);
    assert!(game.inventory[0].equipment.unwrap().equipped);
    assert_eq!(log_of(&game), vec!["You picked up a sword!", "Equipped sword on right hand."]);
    assert_eq!(objects[1].name, "buckler");
    pick_item_up(2, &mut game, &mut objects);
    assert_eq!(game.inventory[1].name, "axe");
    assert!(!game.inventory[1].equipment.unwrap().equipped);
    assert_eq!(game.messages.len(), 3);
    pick_item_up(1, &mut game, &mut objects);
    assert_eq!(game.inventory[2].name, "buckler");
    assert!(game.inventory[2].equipment.unwrap().equipped);
    assert_eq!(worn_per_slot(&game), [1, 1, 0]);
    assert_eq!(objects[PLAYER].power(&game), 4 + 3 + 3);
    assert_eq!(get_equipped_in_slot(Slot::RightHand, &game.inventory), Some(0));
    assert_eq!(get_equipped_in_slot(Slot::LeftHand, &game.inventory), Some(2));
    assert_eq!(get_equipped_in_slot(Slot::Head, &game.inventory), None);
}

#[test]
fn dropping_takes_equipment_off_and_lays_it_at_the_players_feet() {
    let mut game = empty_game();
    game.inventory.push(item_object(Item::Heal, 0, 0));
    game.inventory.push(gear("sword", Slot::RightHand, true));
    game.inventory.push(item_object(Item::Fireball, 0, 0));
    let mut objects = vec![player(17, 18)];
    drop_item(1, &mut game, &mut objects);
    assert_eq!(game.inventory.len(), 2);
    assert_eq!(game.inventory[0].name, "healing potion");
    assert_eq!(game.inventory[1].name, "scroll of fireball");
    assert_eq!(objects.len(), 2);
    assert_eq!(objects[1].name, "sword");
    assert_eq!(objects[1].pos(), (17, 18));
    assert!(!objects[1].equipment.unwrap().equipped);
    assert_eq!(log_of(&game), vec!["Dequipped sword on right hand.", "You dropped a sword."]);
    assert_eq!(game.messages.get(1).1, yellow());
    drop_item(0, &mut game, &mut objects);
    assert_eq!(objects[2].name, "healing potion");
    assert_eq!(objects[2].pos(), (17, 18));
    assert_eq!(game.messages.len(), 3);
}

#[test]
fn wearing_a_piece_takes_off_the_one_in_its_slot() {
    let mut game = empty_game();
    game.inventory.push(gear("sword", Slot::RightHand, true));
    game.inventory.push(gear("axe", Slot::RightHand, false));
    game.inventory.push(gear("helmet", Slot::Head, true));
    assert_eq!(toggle_equipment(1, &mut game), UseResult::UsedAndKept);
    assert!(!game.inventory[0].equipment.unwrap().equipped);
    assert!(game.inventory[1].equipment.unwrap().equipped);
    assert!(game.inventory[2].equipment.unwrap().equipped);
    assert_eq!(worn_per_slot(&game), [0, 1, 1]);
    assert_eq!(log_of(&game), vec!["Dequipped sword on right hand.", "Equipped axe on right hand."]);
    assert_eq!(toggle_equipment(1, &mut game), UseResult::UsedAndKept);
    assert!(!game.inventory[1].equipment.unwrap().equipped);
    assert_eq!(worn_per_slot(&game), [0, 0, 1]);
    assert_eq!(toggle_equipment(0, &mut game), UseResult::UsedAndKept);
    assert_eq!(worn_per_slot(&game), [0, 1, 1]);
    game.inventory.push(item_object(Item::Heal, 0, 0));
    assert_eq!(toggle_equipment(3, &mut game), UseResult::Cancelled);
}

#[test]
fn never_two_pieces_in_one_slot() {
    let mut game = empty_game();
    let mut objects = vec![player(12, 12)];
    let slots = [Slot::RightHand, Slot::LeftHand, Slot::Head];
    for i in 0..9 {
        objects.push(gear("piece", slots[i % 3], false));
    }
    for _ in 0..9 {
        pick_item_up(1, &mut game, &mut objects);
        assert!(worn_per_slot(&game).iter().all(|n| *n <= 1));
    }
    let fov = all_in_view();
    for step in 0..60 {
        let id = (step * 7 + 3) % game.inventory.len();
        use_item(id, None, &fov, &mut game, &mut objects);
        assert!(worn_per_slot(&game).iter().all(|n| *n <= 1));
        if step % 11 == 10 {
            drop_item(id, &mut game, &mut objects);
            assert!(worn_per_slot(&game).iter().all(|n| *n <= 1));
            let last = objects.len() - 1;
            pick_item_up(last, &mut game, &mut objects);
            assert!(worn_per_slot(&game).iter().all(|n| *n <= 1));
        }
    }
    assert_eq!(game.inventory.len(), 9);
}

#[test]
fn a_potion_heals_and_is_used_up() {
    let mut game = empty_game();
    game.inventory.push(item_object(Item::Heal, 0, 0));
    game.inventory.push(item_object(Item::Heal, 0, 0));
    let mut objects = vec![player(12, 12)];
    objects[0].fighter.as_mut().unwrap().hp = 30;
    let fov = all_in_view();
    use_item(0, None, &fov, &mut game, &mut objects);
    assert_eq!(objects[0].fighter.unwrap().hp, 30 + HEAL_AMOUNT);
    assert_eq!(game.inventory.len(), 1);
    assert_eq!(log_of(&game), vec!["Your wounds start to feel better!"]);
    assert_eq!(game.messages.get(0).1, light_violet());
    use_item(0, None, &fov, &mut game, &mut objects);
    assert_eq!(objects[0].fighter.unwrap().hp, 100);
    assert_eq!(game.inventory.len(), 0);
}

#[test]
fn a_potion_is_kept_at_full_health() {
    let mut game = empty_game();
    game.inventory.push(item_object(Item::Heal, 0, 0));
    let mut objects = vec![player(12, 12)];
    let fov = all_in_view();
    use_item(0, None, &fov, &mut game, &mut objects);
    assert_eq!(objects[0].fighter.unwrap().hp, 100);
    assert_eq!(game.inventory.len(), 1);
    assert_eq!(log_of(&game), vec!["You are already at full health.", "Cancelled"]);
    assert_eq!(game.messages.get(0).1, red());
    assert_eq!(game.messages.get(1).1, white());
    assert_eq!(cast_heal(&mut game, &mut objects), UseResult::Cancelled);
    objects[0].fighter = None;
    assert_eq!(cast_heal(&mut game, &mut objects), UseResult::Cancelled);
    assert_eq!(game.messages.len(), 3);
}

#[test]
fn a_potion_is_kept_at_full_health_however_high() {
    let mut game = empty_game();
    game.inventory.push(item_object(Item::Heal, 0, 0));
    let mut objects = vec![player(12, 12)];
    objects[0].fighter.as_mut().unwrap().hp = i32::MAX;
    objects[0].fighter.as_mut().unwrap().base_max_hp = i32::MAX;
    let fov = all_in_view();
    use_item(0, None, &fov, &mut game, &mut objects);
    assert_eq!(objects[0].fighter.unwrap().hp, i32::MAX);
    assert_eq!(game.inventory.len(), 1);
    assert_eq!(log_of(&game), vec!["You are already at full health.", "Cancelled"]);
}

#[test]
fn lightning_does_not_reach_beyond_its_range() {
    let fov = all_in_view();
    for (x, y, struck) in [(5, 1, false), (5, 0, true), (3, 4, true), (4, 4, false)] {
        let mut game = empty_game();
        let mut objects = vec![player(12, 12), monster("orc", 12 + x, 12 + y, 50, 35)];
        let result = cast_lightning(&fov, &mut game, &mut objects);
        assert_eq!(result, if struck { UseResult::UsedUp } else { UseResult::Cancelled });
        assert_eq!(objects[1].fighter.unwrap().hp, if struck { 10 } else { 50 });
    }
}

#[test]
fn lightning_strikes_the_closest_monster_in_view() {
    let mut game = empty_game();
    let mut objects = vec![
        player(15, 15),
        monster("far orc", 19, 15, 50, 35),
        monster("near orc", 17, 15, 50, 35),
        monster("weak orc", 15, 18, 10, 60),
    ];
    let fov = all_in_view();
    assert_eq!(cast_lightning(&fov, &mut game, &mut objects), UseResult::UsedUp);
    assert_eq!(objects[2].fighter.unwrap().hp, 50 - LIGHTNING_DAMAGE);
    assert_eq!(objects[1].fighter.unwrap().hp, 50);
    assert_eq!(
        log_of(&game),
        vec!["A lightning bolt strikes the near orc with a loud thunger! The damage is 40 hit points."]
    );
    assert_eq!(game.messages.get(0).1, light_blue());
    objects[2].set_pos(25, 25);
    assert_eq!(cast_lightning(&fov, &mut game, &mut objects), UseResult::UsedUp);
    assert!(!objects[3].alive);
    assert_eq!(objects[3].name, "remains of weak orc");
    assert_eq!(objects[0].fighter.unwrap().xp, 60);
    assert_eq!(game.messages.get(2).0, "weak orc Is dead!");
}

#[test]
fn lightning_needs_a_monster_in_view_and_in_range() {
    let mut game = empty_game();
    let mut objects = vec![player(15, 15), monster("orc", 21, 15, 50, 35)];
    let fov = all_in_view();
    game.inventory.push(item_object(Item::Lightning, 0, 0));
    use_item(0, None, &fov, &mut game, &mut objects);
    assert_eq!(objects[1].fighter.unwrap().hp, 50);
    assert_eq!(game.inventory.len(), 1);
    assert_eq!(log_of(&game), vec!["No enemy is close enough to strike.", "Cancelled"]);
    objects[1].set_pos(20, 15);
    let blind = FovMap::new(MAP_WIDTH as usize, MAP_HEIGHT as usize);
    use_item(0, None, &blind, &mut game, &mut objects);
    assert_eq!(objects[1].fighter.unwrap().hp, 50);
    assert_eq!(game.inventory.len(), 1);
    use_item(0, None, &fov, &mut game, &mut objects);
    assert_eq!(objects[1].fighter.unwrap().hp, 10);
    assert_eq!(game.inventory.len(), 0);
}

#[test]
fn confusion_wraps_what_the_monster_had_in_mind() {
    let mut game = empty_game();
    let mut objects = vec![player(15, 15), monster("orc", 17, 15, 50, 35)];
    assert_eq!(cast_confuse(Some((17, 15)), &mut game, &mut objects), UseResult::UsedUp);
    assert_eq!(
        objects[1].ai,
        Some(Ai::Confused { previous_ai: Box::new(Ai::Basic), num_turns: CONFUSE_NUM_TURNS })
    );
    assert_eq!(
        log_of(&game),
        vec![
            "Left-click an enemy to confuse it, or right-click to cancel.",
            "The eyes of orc look vacant, as he starts to stumble around!",
        ]
    );
    assert_eq!(game.messages.get(0).1, light_cyan());
    assert_eq!(game.messages.get(1).1, light_green());
    assert_eq!(cast_confuse(Some((17, 15)), &mut game, &mut objects), UseResult::UsedUp);
    assert_eq!(
        objects[1].ai,
        Some(Ai::Confused {
            previous_ai: Box::new(Ai::Confused { previous_ai: Box::new(Ai::Basic), num_turns: 10 }),
            num_turns: 10
        })
    );
}

#[test]
fn confusion_needs_a_monster_on_the_tile() {
    let mut game = empty_game();
    let mut objects = vec![player(15, 15), monster("orc", 17, 15, 50, 35)];
    assert_eq!(cast_confuse(None, &mut game, &mut objects), UseResult::Cancelled);
    assert_eq!(cast_confuse(Some((18, 15)), &mut game, &mut objects), UseResult::Cancelled);
    assert_eq!(cast_confuse(Some((15, 15)), &mut game, &mut objects), UseResult::Cancelled);
    assert_eq!(objects[1].ai, Some(Ai::Basic));
    assert_eq!(game.messages.get(1).0, "No enemy is close enough to strike.");
    assert_eq!(game.messages.len(), 6);
}

#[test]
fn a_fireball_burns_the_player_too_but_credits_only_monsters() {
    let mut game = empty_game();
    game.inventory.push(item_object(Item::Fireball, 0, 0));
    let mut objects = vec![
        player(15, 15),
        monster("orc", 16, 16, 10, 35),
        monster("troll", 17, 15, 60, 100),
        monster("bystander", 19, 15, 10, 35),
        item_object(Item::Heal, 15, 16),
    ];
    let fov = all_in_view();
    use_item(0, Some((15, 15)), &fov, &mut game, &mut objects);
    assert_eq!(objects[0].fighter.unwrap().hp, 100 - FIREBALL_DAMAGE);
    assert!(!objects[1].alive);
    assert_eq!(objects[1].name, "remains of orc");
    assert_eq!(objects[2].fighter.unwrap().hp, 60 - FIREBALL_DAMAGE);
    assert_eq!(objects[3].fighter.unwrap().hp, 10);
    assert_eq!(objects[0].fighter.unwrap().xp, 35);
    assert_eq!(game.inventory.len(), 0);
    assert_eq!(
        log_of(&game),
        vec![
            "Left-click a target tile for the fireball, or right-click to cancel.",
            "The fireball explodes, burning everything within 3 tiles!",
            "The player gets burned for 25 hit points.",
            "The orc gets burned for 25 hit points.",
            "orc Is dead!",
            "The troll gets burned for 25 hit points.",
        ]
    );
    assert_eq!(game.messages.get(1).1, orange());
}

#[test]
fn a_fireball_that_kills_the_player_credits_nothing_for_it() {
    let mut game = empty_game();
    let mut objects = vec![player(15, 15), monster("orc", 16, 16, 30, 35)];
    objects[0].fighter.as_mut().unwrap().hp = 20;
    objects[0].fighter.as_mut().unwrap().xp = 7;
    assert_eq!(cast_fireball(Some((16, 15)), &mut game, &mut objects), UseResult::UsedUp);
    assert!(!objects[0].alive);
    assert_eq!(objects[0].fighter.unwrap().hp, -5);
    assert_eq!(objects[0].fighter.unwrap().xp, 7);
    assert_eq!(objects[1].fighter.unwrap().hp, 5);
    assert_eq!(game.messages.get(3).0, "You died!");
}

#[test]
fn a_fireball_without_a_target_is_cancelled() {
    let mut game = empty_game();
    game.inventory.push(item_object(Item::Fireball, 0, 0));
    let mut objects = vec![player(15, 15), monster("orc", 16, 16, 10, 35)];
    let fov = all_in_view();
    use_item(0, None, &fov, &mut game, &mut objects);
    assert_eq!(objects[1].fighter.unwrap().hp, 10);
    assert_eq!(game.inventory.len(), 1);
    assert_eq!(
        log_of(&game),
        vec!["Left-click a target tile for the fireball, or right-click to cancel.", "Cancelled"]
    );
}

#[test]
fn the_radius_of_a_fireball_is_three_tiles() {
    for (dx, dy, burnt) in [(3, 0, true), (0, 3, true), (2, 2, true), (3, 1, false), (4, 0, false), (-3, 0, true), (-2, -2, true), (-2, -3, false)] {
        let mut game = empty_game();
        let mut objects = vec![player(11, 11), monster("orc", 20 + dx, 20 + dy, 50, 35)];
        cast_fireball(Some((20, 20)), &mut game, &mut objects);
        assert_eq!(objects[1].fighter.unwrap().hp, if burnt { 25 } else { 50 }, "at ({}, {})", dx, dy);
        assert_eq!(objects[0].fighter.unwrap().hp, 100);
    }
}

#[test]
fn what_is_no_item_cannot_be_used() {
    let mut game = empty_game();
    game.inventory.push(GameObject::new(0, 0, '*', "rock", white(), false));
    let mut objects = vec![player(15, 15)];
    let fov = all_in_view();
    use_item(0, None, &fov, &mut game, &mut objects);
    assert_eq!(game.inventory.len(), 1);
    assert_eq!(log_of(&game), vec!["The rock cannot be used."]);
    assert_eq!(game.messages.get(0).1, white());
}

#[test]
fn using_equipment_toggles_it_and_keeps_it() {
    let mut game = empty_game();
    game.inventory.push(item_object(Item::Sword, 0, 0));
    game.inventory.push(item_object(Item::Shield, 0, 0));
    let mut objects = vec![player(15, 15)];
    let fov = all_in_view();
    use_item(0, None, &fov, &mut game, &mut objects);
    use_item(1, None, &fov, &mut game, &mut objects);
    assert_eq!(game.inventory.len(), 2);
    assert!(game.inventory[0].equipment.unwrap().equipped);
    assert!(game.inventory[1].equipment.unwrap().equipped);
    assert_eq!(objects[0].power(&game), 4 + 3);
    assert_eq!(objects[0].defense(&game), 1 + 1);
    use_item(0, None, &fov, &mut game, &mut objects);
    assert!(!game.inventory[0].equipment.unwrap().equipped);
    assert_eq!(objects[0].power(&game), 4);
    assert_eq!(
        log_of(&game),
        vec![
            "Equipped sword on right hand.",
            "Equipped shield on left hand.",
            "Dequipped sword on right hand.",
        ]
    );
}
