use roguelike::colors::{red, white, Color};
use roguelike::fov::FovMap;
use roguelike::game::{Game, Intent};
use roguelike::game_object::{Ai, DeathCallback, Fighter, GameObject, Item, LEVEL_UP_BASE, LEVEL_UP_FACTOR};
use roguelike::map::{create_room, Grid, Rect, Tile, MAP_HEIGHT, MAP_WIDTH};
use roguelike::menu::{
    character_information, get_names_under_mouse, inventory_choice, inventory_options,
    level_up_options, menu_choice,
};
use roguelike::panel::Messages;
use roguelike::safety::{
    blow_is_safe, cast_is_safe, descent_is_safe, fireball_is_safe, heal_is_safe, intent_is_safe,
    level_up_is_safe, lightning_is_safe, raid_is_safe, round_is_safe,
};
use roguelike::spawn::item_object;
use roguelike::targeting::{
    closest_monster, monster_at, target_monster, target_tile, Aim, Pointer,
};
use roguelike::text::{int_to_string, join2, join3, join4, join5, join7};

fn one_room() -> Grid {
    let mut map = vec![vec![Tile::wall(); MAP_HEIGHT as usize]; MAP_WIDTH as usize];
    create_room(Rect::new(10, 10, 20, 20), &mut map);
    map
}

fn empty_game() -> Game {
    Game { game_map: one_room(), messages: Messages::new(), inventory: vec![], dungeon_level: 1 }
}

fn all_in_view() -> FovMap {
    let mut fov = FovMap::new(MAP_WIDTH as usize, MAP_HEIGHT as usize);
    for x in 0..MAP_WIDTH {
        for y in 0..MAP_HEIGHT {
            fov.set(x, y, true);
        }
    }
    fov
}

fn player(x: i32, y: i32) -> GameObject {
    let mut player = GameObject::new(x, y, '@', "player", white(), true);
    player.alive = true;
    player.fighter = Some(Fighter {
        hp: 100,
        base_max_hp: 100,
        base_defense: 1,
        base_power: 4,
        xp: 0,
        on_death: DeathCallback::Player,
    });
    player
}

fn orc(x: i32, y: i32) -> GameObject {
    let mut orc = GameObject::new(x, y, 'o', "orc", white(), true);
    orc.alive = true;
    orc.fighter = Some(Fighter {
        hp: 10,
        base_max_hp: 10,
        base_defense: 0,
        base_power: 3,
        xp: 35,
        on_death: DeathCallback::Monster,
    });
    orc.ai = Some(Ai::Basic);
    orc
}

fn click(x: i32, y: i32) -> Pointer {
    Pointer { x, y, left_pressed: true, right_pressed: false, escape: false }
}

#[test]
fn numbers_are_written_in_decimal() {
    assert_eq!(int_to_string(0), "0");
    assert_eq!(int_to_string(7), "7");
    assert_eq!(int_to_string(10), "10");
    assert_eq!(int_to_string(1905), "1905");
    assert_eq!(int_to_string(-1), "-1");
    assert_eq!(int_to_string(-340), "-340");
    assert_eq!(int_to_string(i32::MAX as i64), "2147483647");
    assert_eq!(int_to_string(i32::MIN as i64), "-2147483648");
    assert_eq!(int_to_string(i64::MAX), "9223372036854775807");
    for n in -1000..1000 {
        assert_eq!(int_to_string(n), n.to_string());
    }
}

#[test]
fn pieces_are_joined_in_order() {
    assert_eq!(join2("a", "bc"), "abc");
    assert_eq!(join3("a", "", "bc"), "abc");
    assert_eq!(join4("a", "b", "c", "d"), "abcd");
    assert_eq!(join5("1", "2", "3", "4", "5"), "12345");
    assert_eq!(join7("1", "2", "3", "4", "5", "6", "7"), "1234567");
}

#[test]
fn the_log_keeps_what_it_is_told_in_order() {
    let mut log = Messages::new();
    assert_eq!(log.len(), 0);
    log.add("first", white());
    log.add("second", red());
    assert_eq!(log.len(), 2);
    assert_eq!(log.get(0), ("first", white()));
    assert_eq!(log.get(1), ("second", red()));
    let told: Vec<(String, Color)> = log.iter().cloned().collect();
    assert_eq!(told, vec![("first".to_string(), white()), ("second".to_string(), red())]);
    let last = log.iter().rev().next().unwrap();
    assert_eq!(last.0, "second");
}

#[test]
fn nothing_off_the_mask_is_in_view() {
    let mut fov = FovMap::new(3, 2);
    assert!(!fov.is_in_fov(0, 0));
    fov.set(2, 1, true);
    fov.set(3, 1, true);
    fov.set(-1, 0, true);
    fov.set(0, 2, true);
    assert!(fov.is_in_fov(2, 1));
    assert!(fov.shows(2, 1));
    assert!(!fov.is_in_fov(3, 1));
    assert!(!fov.is_in_fov(-1, 0));
    assert!(!fov.is_in_fov(0, 2));
    assert!(!fov.shows(0, 2));
    assert!(!fov.is_in_fov(1, 1));
    fov.set(2, 1, false);
    assert!(!fov.is_in_fov(2, 1));
    assert_eq!(fov.cells.len(), 3);
    assert!(fov.cells.iter().all(|column| column.len() == 2));
}

#[test]
fn the_closest_monster_is_the_first_of_the_nearest() {
    let fov = all_in_view();
    let mut objects = vec![player(15, 15), orc(19, 15), orc(17, 15), orc(15, 17), item_object(Item::Heal, 16, 15)];
    assert_eq!(closest_monster(&fov, &objects, 5), Some(2));
    assert_eq!(closest_monster(&fov, &objects, 2), Some(2));
    assert_eq!(closest_monster(&fov, &objects, 1), None);
    assert_eq!(closest_monster(&fov, &objects, 0), None);
    assert_eq!(closest_monster(&fov, &objects, -3), None);
    objects[2].ai = None;
    assert_eq!(closest_monster(&fov, &objects, 5), Some(3));
    objects[3].fighter = None;
    assert_eq!(closest_monster(&fov, &objects, 5), Some(1));
    assert_eq!(closest_monster(&fov, &objects, 4), Some(1));
    assert_eq!(closest_monster(&fov, &objects, 3), None);
    let mut blind = all_in_view();
    blind.set(19, 15, false);
    assert_eq!(closest_monster(&blind, &objects, 5), None);
    assert_eq!(closest_monster(&fov, &[], 5), None);
    assert_eq!(closest_monster(&fov, &objects[..1], 5), None);
}

#[test]
fn a_monster_is_found_within_the_range_and_no_further() {
    let fov = all_in_view();
    for (dx, dy, found) in [
        (5, 0, true),
        (3, 4, true),
        (-4, 3, true),
        (0, -5, true),
        (5, 1, false),
        (5, 3, false),
        (4, 4, false),
        (6, 0, false),
        (5, 4, false),
    ] {
        let objects = vec![player(20, 20), orc(20 + dx, 20 + dy)];
        assert_eq!(closest_monster(&fov, &objects, 5), if found { Some(1) } else { None });
    }
}

#[test]
fn a_left_click_in_view_and_in_range_chooses_the_tile() {
    let fov = all_in_view();
    let objects = vec![player(15, 15), orc(17, 15)];
    assert_eq!(target_tile(&click(17, 15), &fov, &objects, None), Aim::Chosen((17, 15)));
    assert_eq!(target_tile(&click(23, 15), &fov, &objects, Some(8)), Aim::Chosen((23, 15)));
    assert_eq!(target_tile(&click(24, 15), &fov, &objects, Some(8)), Aim::Pending);
    assert_eq!(target_tile(&click(17, 15), &fov, &objects, Some(-1)), Aim::Pending);
    assert_eq!(target_tile(&click(MAP_WIDTH, 15), &fov, &objects, None), Aim::Pending);
    assert_eq!(target_tile(&click(15, MAP_HEIGHT), &fov, &objects, None), Aim::Pending);
    assert_eq!(target_tile(&click(-1, 15), &fov, &objects, None), Aim::Pending);
    let mut blind = all_in_view();
    blind.set(17, 15, false);
    assert_eq!(target_tile(&click(17, 15), &blind, &objects, None), Aim::Pending);
    let idle = Pointer { x: 17, y: 15, left_pressed: false, right_pressed: false, escape: false };
    assert_eq!(target_tile(&idle, &fov, &objects, None), Aim::Pending);
    let right = Pointer { right_pressed: true, ..idle };
    assert_eq!(target_tile(&right, &fov, &objects, None), Aim::Cancelled);
    let escape = Pointer { escape: true, ..idle };
    assert_eq!(target_tile(&escape, &fov, &objects, None), Aim::Cancelled);
    let both = Pointer { left_pressed: true, right_pressed: true, ..idle };
    assert_eq!(target_tile(&both, &fov, &objects, None), Aim::Chosen((17, 15)));
    let out = Pointer { x: 70, ..both };
    assert_eq!(target_tile(&out, &fov, &objects, Some(8)), Aim::Cancelled);
}

#[test]
fn a_click_on_a_monster_chooses_it() {
    let fov = all_in_view();
    let objects = vec![player(15, 15), item_object(Item::Heal, 17, 15), orc(17, 15), orc(17, 15)];
    assert_eq!(monster_at(&objects, 17, 15), Some(2));
    assert_eq!(monster_at(&objects, 15, 15), None);
    assert_eq!(target_monster(&click(17, 15), &fov, &objects, Some(8)), Aim::Chosen(2));
    assert_eq!(target_monster(&click(15, 15), &fov, &objects, Some(8)), Aim::Pending);
    assert_eq!(target_monster(&click(18, 15), &fov, &objects, Some(8)), Aim::Pending);
    let right = Pointer { x: 17, y: 15, left_pressed: false, right_pressed: true, escape: false };
    assert_eq!(target_monster(&right, &fov, &objects, Some(8)), Aim::Cancelled);
}

#[test]
fn a_letter_chooses_the_option_it_stands_for() {
    assert_eq!(menu_choice('a', 3), Some(0));
    assert_eq!(menu_choice('c', 3), Some(2));
    assert_eq!(menu_choice('C', 3), Some(2));
    assert_eq!(menu_choice('d', 3), None);
    assert_eq!(menu_choice('z', 26), Some(25));
    assert_eq!(menu_choice('Z', 26), Some(25));
    assert_eq!(menu_choice('a', 0), None);
    assert_eq!(menu_choice('1', 26), None);
    assert_eq!(menu_choice(' ', 26), None);
    assert_eq!(menu_choice('\u{0}', 26), None);
    assert_eq!(menu_choice('é', 26), None);
    assert_eq!(menu_choice('`', 26), None);
    assert_eq!(menu_choice('{', 26), None);
    assert_eq!(menu_choice('@', 26), None);
    assert_eq!(menu_choice('[', 26), None);
}

#[test]
fn the_inventory_menu_lists_what_is_carried() {
    assert_eq!(inventory_options(&[]), vec!["Inventory is empty."]);
    let carried = vec![item_object(Item::Heal, 0, 0), item_object(Item::Sword, 0, 0)];
    assert_eq!(inventory_options(&carried), vec!["healing potion", "sword"]);
    assert_eq!(inventory_choice('a', &[]), None);
    assert_eq!(inventory_choice('b', &carried), Some(1));
    assert_eq!(inventory_choice('c', &carried), None);
}

#[test]
fn the_level_up_menu_shows_the_stats_to_raise() {
    assert_eq!(
        level_up_options(&player(0, 0)),
        vec![
            "Constitution (+20 HP, from 100)",
            "Strength (+1 attack, from 4)",
            "Agility (+1 defense, from 1)",
        ]
    );
}

#[test]
fn the_character_sheet_shows_level_and_stats() {
    let mut hero = player(0, 0);
    hero.level = 3;
    hero.fighter.as_mut().unwrap().xp = 120;
    let sheet = character_information(&hero, LEVEL_UP_BASE, LEVEL_UP_FACTOR).unwrap();
    assert_eq!(
        sheet,
        "Character information\n            \nLevel: 3\nExperience: 120\nExperience to level up: 650\n\nMaximum HP: 100\nAttack: 4\nDefense: 1"
    );
    assert_eq!(character_information(&item_object(Item::Heal, 0, 0), 200, 150), None);
}

#[test]
fn names_under_the_pointer_are_joined_by_commas() {
    let fov = all_in_view();
    let objects = vec![player(15, 15), item_object(Item::Heal, 17, 15), orc(17, 15), orc(18, 15)];
    assert_eq!(get_names_under_mouse(17, 15, &objects, &fov), "healing potion, orc");
    assert_eq!(get_names_under_mouse(15, 15, &objects, &fov), "player");
    assert_eq!(get_names_under_mouse(16, 15, &objects, &fov), "");
    let mut blind = all_in_view();
    blind.set(17, 15, false);
    assert_eq!(get_names_under_mouse(17, 15, &objects, &blind), "");
    let mut nameless = GameObject::new(17, 15, '?', "", white(), false);
    nameless.always_visible = true;
    let objects = vec![player(15, 15), nameless, orc(17, 15)];
    assert_eq!(get_names_under_mouse(17, 15, &objects, &fov), ", orc");
}

#[test]
fn blows_that_would_overflow_are_told_apart() {
    let game = empty_game();
    let hero = player(15, 15);
    let monster = orc(16, 15);
    assert!(blow_is_safe(&hero, &monster, &game));
    assert!(raid_is_safe(&monster, &hero, &game));
    let mut strong = orc(16, 15);
    strong.fighter.as_mut().unwrap().base_power = i32::MAX;
    let mut weak = player(15, 15);
    weak.fighter.as_mut().unwrap().base_defense = -1;
    assert!(!blow_is_safe(&strong, &weak, &game));
    assert!(!raid_is_safe(&strong, &weak, &game));
    assert!(blow_is_safe(&strong, &hero, &game));
    let mut rich = player(15, 15);
    rich.fighter.as_mut().unwrap().xp = i32::MAX;
    assert!(blow_is_safe(&rich, &monster, &game));
    let mut frail = orc(16, 15);
    frail.fighter.as_mut().unwrap().hp = 4;
    assert!(!blow_is_safe(&rich, &frail, &game));
    let mut tough = orc(16, 15);
    tough.fighter.as_mut().unwrap().hp = 1000;
    assert!(blow_is_safe(&rich, &tough, &game));
    assert!(!raid_is_safe(&monster, &rich, &game));
    let mut doomed = orc(16, 15);
    doomed.fighter.as_mut().unwrap().hp = i32::MIN;
    assert!(!blow_is_safe(&hero, &doomed, &game));
    let mut mindless = orc(16, 15);
    mindless.fighter = None;
    assert!(blow_is_safe(&mindless, &hero, &game));
    assert!(raid_is_safe(&mindless, &hero, &game));
}

#[test]
fn a_round_needs_a_player_without_the_mind_of_a_monster() {
    let game = empty_game();
    assert!(!round_is_safe(&game, &[]));
    let mut objects = vec![player(15, 15), orc(16, 15)];
    assert!(round_is_safe(&game, &objects));
    objects[1].fighter.as_mut().unwrap().xp = i32::MAX;
    objects[0].fighter.as_mut().unwrap().xp = 1;
    assert!(!round_is_safe(&game, &objects));
    objects[1].ai = Some(Ai::Confused { previous_ai: Box::new(Ai::Basic), num_turns: 3 });
    assert!(round_is_safe(&game, &objects));
    objects[0].ai = Some(Ai::Basic);
    assert!(!round_is_safe(&game, &objects));
}

#[test]
fn casts_that_would_overflow_are_told_apart() {
    let game = empty_game();
    let fov = all_in_view();
    let mut objects = vec![player(15, 15), orc(16, 15)];
    assert!(heal_is_safe(&game, &objects));
    assert!(lightning_is_safe(&fov, &game, &objects));
    assert!(fireball_is_safe(Some((15, 15)), &game, &objects));
    assert!(fireball_is_safe(None, &game, &objects));
    for item in [Item::Heal, Item::Lightning, Item::Confuse, Item::Fireball, Item::Sword, Item::Shield] {
        assert!(cast_is_safe(item, Some((15, 15)), &fov, &game, &objects));
    }
    objects[0].fighter.as_mut().unwrap().hp = i32::MAX;
    objects[0].fighter.as_mut().unwrap().base_max_hp = i32::MAX;
    assert!(heal_is_safe(&game, &objects));
    objects[0].fighter.as_mut().unwrap().base_max_hp = 100;
    objects[0].fighter.as_mut().unwrap().hp = i32::MAX - 10;
    assert!(!heal_is_safe(&game, &objects));
    assert!(!cast_is_safe(Item::Heal, None, &fov, &game, &objects));
    objects[0].fighter.as_mut().unwrap().hp = 100;
    objects[0].fighter.as_mut().unwrap().xp = i32::MAX - 10;
    assert!(!lightning_is_safe(&fov, &game, &objects));
    assert!(!fireball_is_safe(Some((15, 15)), &game, &objects));
    assert!(fireball_is_safe(Some((25, 25)), &game, &objects));
    objects[1].fighter.as_mut().unwrap().hp = 100;
    assert!(lightning_is_safe(&fov, &game, &objects));
    assert!(fireball_is_safe(Some((15, 15)), &game, &objects));
    objects[1].fighter.as_mut().unwrap().hp = i32::MIN + 30;
    assert!(!lightning_is_safe(&fov, &game, &objects));
    assert!(!fireball_is_safe(Some((15, 15)), &game, &objects));
    objects[0].fighter = None;
    assert!(!fireball_is_safe(Some((25, 25)), &game, &objects));
    assert!(!fireball_is_safe(Some((15, 15)), &game, &[]));
}

#[test]
fn progress_that_would_overflow_is_told_apart() {
    let mut game = empty_game();
    let mut objects = vec![player(15, 15)];
    assert!(descent_is_safe(&game, &objects));
    assert!(level_up_is_safe(0, &objects));
    objects[0].fighter.as_mut().unwrap().xp = 1000;
    assert!(level_up_is_safe(0, &objects));
    objects[0].fighter.as_mut().unwrap().base_power = i32::MAX;
    assert!(level_up_is_safe(0, &objects));
    assert!(!level_up_is_safe(1, &objects));
    assert!(level_up_is_safe(2, &objects));
    objects[0].fighter.as_mut().unwrap().hp = i32::MAX;
    assert!(!level_up_is_safe(0, &objects));
    assert!(!descent_is_safe(&game, &objects));
    objects[0].fighter.as_mut().unwrap().hp = 10;
    game.dungeon_level = u32::MAX;
    assert!(!descent_is_safe(&game, &objects));
}

#[test]
fn intents_that_cannot_be_carried_out_are_told_apart() {
    let game = empty_game();
    let fov = all_in_view();
    let mut objects = vec![player(15, 15), orc(16, 15)];
    assert!(!intent_is_safe(Intent::Wait, &fov, &game, &[]));
    assert!(intent_is_safe(Intent::Wait, &fov, &game, &objects));
    assert!(intent_is_safe(Intent::Move(1, 0), &fov, &game, &objects));
    assert!(intent_is_safe(Intent::Move(0, 1), &fov, &game, &objects));
    assert!(!intent_is_safe(Intent::Move(0, 0), &fov, &game, &objects));
    assert!(intent_is_safe(Intent::Move(i32::MAX, i32::MAX), &fov, &game, &objects));
    objects[0].fighter.as_mut().unwrap().xp = i32::MAX;
    assert!(intent_is_safe(Intent::Move(1, 0), &fov, &game, &objects));
    objects[1].fighter.as_mut().unwrap().hp = 4;
    assert!(!intent_is_safe(Intent::Move(1, 0), &fov, &game, &objects));
    assert!(intent_is_safe(Intent::Move(-1, 0), &fov, &game, &objects));
    assert!(intent_is_safe(Intent::UseItem(0, None), &fov, &game, &objects));
    assert!(intent_is_safe(Intent::Descend, &fov, &game, &objects));
    objects[0].alive = false;
    assert!(intent_is_safe(Intent::Move(1, 0), &fov, &game, &objects));
    assert!(intent_is_safe(Intent::Move(0, 0), &fov, &game, &objects));
}
