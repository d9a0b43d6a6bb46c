use rand::rngs::StdRng;
use rand::SeedableRng;
use roguelike::ai::{ai_basic, ai_confused, ai_take_turn, confused_step, monsters_turn};
use roguelike::colors::{red, white};
use roguelike::fov::FovMap;
use roguelike::game::{
    end_turn, item_at, mark_explored, new_game, next_level, player_on_stairs, player_turn, Game,
    Intent,
};
use roguelike::game_object::{
    Ai, DeathCallback, Fighter, GameObject, Item, PlayerAction, LEVEL_UP_BASE, LEVEL_UP_FACTOR,
    PLAYER,
};
use roguelike::map::{create_room, Grid, Rect, Tile, MAP_HEIGHT, MAP_WIDTH};
use roguelike::panel::Messages;
use roguelike::progress::{level_up, level_up_available};
use roguelike::spawn::item_object;

fn one_room() -> Grid {
    let mut map = vec![vec![Tile::wall(); MAP_HEIGHT as usize]; MAP_WIDTH as usize];
    create_room(Rect::new(10, 10, 20, 20), &mut map);
    map
}

fn empty_game() -> Game {
    Game { game_map: one_room(), messages: Messages::new(), inventory: vec![], dungeon_level: 1 }
}

fn all_in_view() -> FovMap {
    let mut fov = FovMap::new(MAP_WIDTH as usize, MAP_HEIGHT as usize);
    for x in 0..MAP_WIDTH {
        for y in 0..MAP_HEIGHT {
            fov.set(x, y, true);
        }
    }
    fov
}

fn player(x: i32, y: i32) -> GameObject {
    let mut player = GameObject::new(x, y, '@', "player", white(), true);
    player.alive = true;
    player.fighter = Some(Fighter {
        hp: 100,
        base_max_hp: 100,
        base_defense: 1,
        base_power: 4,
        xp: 0,
        on_death: DeathCallback::Player,
    });
    player
}

fn orc(x: i32, y: i32) -> GameObject {
    let mut orc = GameObject::new(x, y, 'o', "orc", white(), true);
    orc.alive = true;
    orc.fighter = Some(Fighter {
        hp: 10,
        base_max_hp: 10,
        base_defense: 0,
        base_power: 3,
        xp: 35,
        on_death: DeathCallback::Monster,
    });
    orc.ai = Some(Ai::Basic);
    orc
}

fn confused(turns: i32) -> Ai {
    Ai::Confused { previous_ai: Box::new(Ai::Basic), num_turns: turns }
}

fn log_of(game: &Game) -> Vec<String> {
    (0..game.messages.len()).map(|i| game.messages.get(i).0.to_string()).collect()
}

#[test]
fn waiting_in_an_empty_room_changes_nothing() {
    let mut game = empty_game();
    let centre = Rect::new(10, 10, 20, 20).center();
    let mut objects = vec![player(centre.0, centre.1)];
    let fov = all_in_view();
    let mut rng = StdRng::seed_from_u64(1);
    let seen = game.messages.len();
    for _ in 0..5 {
        let action = player_turn(Intent::Wait, &fov, &mut game, &mut objects, &mut rng);
        assert_eq!(action, PlayerAction::TookTurn);
        end_turn(action, &fov, &mut game, &mut objects, &mut rng);
        assert_eq!(objects[PLAYER].fighter.unwrap().hp, 100);
        assert_eq!(objects[PLAYER].pos(), centre);
    }
    assert_eq!(game.messages.len() - seen, 0);
    assert_eq!(objects.len(), 1);
}

#[test]
fn a_monster_in_view_comes_closer_and_then_strikes() {
    let mut game = empty_game();
    let mut objects = vec![player(15, 15), orc(20, 15)];
    let fov = all_in_view();
    assert_eq!(ai_basic(1, &fov, &mut game, &mut objects), Ai::Basic);
    assert_eq!(objects[1].pos(), (19, 15));
    ai_basic(1, &fov, &mut game, &mut objects);
    ai_basic(1, &fov, &mut game, &mut objects);
    assert_eq!(objects[1].pos(), (17, 15));
    assert_eq!(game.messages.len(), 0);
    ai_basic(1, &fov, &mut game, &mut objects);
    assert_eq!(objects[1].pos(), (17, 15));
    assert_eq!(objects[0].fighter.unwrap().hp, 98);
    assert_eq!(log_of(&game), vec!["orc attacks player for 2 hit points."]);
}

#[test]
fn a_monster_out_of_view_stays_put() {
    let mut game = empty_game();
    let mut objects = vec![player(15, 15), orc(20, 15), orc(16, 15)];
    let mut fov = all_in_view();
    fov.set(20, 15, false);
    fov.set(16, 15, false);
    ai_basic(1, &fov, &mut game, &mut objects);
    ai_basic(2, &fov, &mut game, &mut objects);
    assert_eq!(objects[1].pos(), (20, 15));
    assert_eq!(objects[0].fighter.unwrap().hp, 100);
    assert_eq!(game.messages.len(), 0);
}

#[test]
fn a_monster_does_not_strike_a_player_who_is_down() {
    let mut game = empty_game();
    let mut objects = vec![player(15, 15), orc(16, 15)];
    objects[0].fighter.as_mut().unwrap().hp = 0;
    let fov = all_in_view();
    ai_basic(1, &fov, &mut game, &mut objects);
    assert_eq!(objects[0].fighter.unwrap().hp, 0);
    assert_eq!(objects[1].pos(), (16, 15));
    assert_eq!(game.messages.len(), 0);
}

#[test]
fn a_monster_that_kills_the_player_takes_the_experience() {
    let mut game = empty_game();
    let mut objects = vec![player(15, 15), orc(16, 15), orc(15, 16)];
    objects[0].fighter.as_mut().unwrap().hp = 2;
    objects[0].fighter.as_mut().unwrap().xp = 50;
    let fov = all_in_view();
    let mut rng = StdRng::seed_from_u64(1);
    monsters_turn(&fov, &mut game, &mut objects, &mut rng);
    assert!(!objects[0].alive);
    assert_eq!(objects[0].fighter.unwrap().hp, 0);
    assert_eq!(objects[1].fighter.unwrap().xp, 85);
    assert_eq!(objects[2].fighter.unwrap().xp, 35);
    assert_eq!(log_of(&game), vec!["orc attacks player for 2 hit points.", "You died!"]);
}

#[test]
fn confusion_with_no_turn_left_wears_off_without_a_step() {
    for seed in 0..20 {
        let game = empty_game();
        let mut objects = vec![player(15, 15), orc(20, 20)];
        let mut rng = StdRng::seed_from_u64(seed);
        let next = ai_confused(1, &game, &mut objects, Box::new(Ai::Basic), -1, &mut rng);
        assert_eq!(next, Ai::Basic);
        assert_eq!(objects[1].pos(), (20, 20));
    }
    let game = empty_game();
    let mut objects = vec![player(15, 15), orc(20, 20)];
    let next = confused_step(1, 1, 1, &game, &mut objects, Box::new(confused(3)), i32::MIN);
    assert_eq!(next, confused(3));
    assert_eq!(objects[1].pos(), (20, 20));
}

#[test]
fn confusion_with_its_last_turn_stumbles_once_more() {
    let game = empty_game();
    let mut objects = vec![player(15, 15), orc(20, 20)];
    let next = confused_step(1, -1, 1, &game, &mut objects, Box::new(Ai::Basic), 0);
    assert_eq!(next, confused(-1));
    assert_eq!(objects[1].pos(), (19, 21));
    let next = confused_step(1, -1, 1, &game, &mut objects, Box::new(Ai::Basic), -1);
    assert_eq!(next, Ai::Basic);
    assert_eq!(objects[1].pos(), (19, 21));
}

#[test]
fn a_confused_monster_stumbles_a_step_at_most_and_counts_down() {
    let mut steps = std::collections::HashSet::new();
    for seed in 0..200 {
        let game = empty_game();
        let mut objects = vec![player(15, 15), orc(20, 20)];
        let mut rng = StdRng::seed_from_u64(seed);
        let next = ai_confused(1, &game, &mut objects, Box::new(Ai::Basic), 5, &mut rng);
        assert_eq!(next, confused(4));
        let (x, y) = objects[1].pos();
        assert!((x - 20).abs() <= 1 && (y - 20).abs() <= 1);
        steps.insert((x - 20, y - 20));
    }
    assert_eq!(steps.len(), 9);
}

#[test]
fn a_confused_monster_does_not_walk_through_walls() {
    for seed in 0..100 {
        let game = empty_game();
        let mut objects = vec![player(15, 15), orc(11, 11), orc(12, 12)];
        let mut rng = StdRng::seed_from_u64(seed);
        ai_confused(1, &game, &mut objects, Box::new(Ai::Basic), 5, &mut rng);
        let (x, y) = objects[1].pos();
        assert!(x >= 11 && y >= 11);
        assert!((x, y) != (12, 12));
    }
}

#[test]
fn a_turn_puts_the_mind_back() {
    let mut game = empty_game();
    let mut objects = vec![player(15, 15), orc(20, 20), orc(25, 25), orc(22, 22)];
    objects[2].ai = Some(confused(0));
    objects[3].ai = Some(confused(-1));
    let fov = all_in_view();
    let mut rng = StdRng::seed_from_u64(3);
    ai_take_turn(1, &fov, &mut game, &mut objects, &mut rng);
    assert_eq!(objects[1].ai, Some(Ai::Basic));
    assert_eq!(objects[1].pos(), (19, 19));
    ai_take_turn(2, &fov, &mut game, &mut objects, &mut rng);
    assert_eq!(objects[2].ai, Some(confused(-1)));
    ai_take_turn(3, &fov, &mut game, &mut objects, &mut rng);
    assert_eq!(objects[3].ai, Some(Ai::Basic));
    assert_eq!(objects[3].pos(), (22, 22));
    let position = objects[2].pos();
    ai_take_turn(2, &fov, &mut game, &mut objects, &mut rng);
    assert_eq!(objects[2].ai, Some(Ai::Basic));
    assert_eq!(objects[2].pos(), position);
}

#[test]
fn every_monster_has_one_turn_in_a_round() {
    let mut game = empty_game();
    let mut objects = vec![
        player(15, 15),
        orc(20, 15),
        item_object(Item::Heal, 18, 15),
        orc(15, 20),
        orc(25, 25),
    ];
    objects[4].ai = Some(confused(2));
    let fov = all_in_view();
    let mut rng = StdRng::seed_from_u64(5);
    monsters_turn(&fov, &mut game, &mut objects, &mut rng);
    assert_eq!(objects[0].pos(), (15, 15));
    assert_eq!(objects[1].pos(), (19, 15));
    assert_eq!(objects[2].pos(), (18, 15));
    assert_eq!(objects[3].pos(), (15, 19));
    assert_eq!(objects[4].ai, Some(confused(1)));
    assert!((objects[4].x - 25).abs() <= 1 && (objects[4].y - 25).abs() <= 1);
    assert_eq!(objects.len(), 5);
}

#[test]
fn the_monsters_move_only_after_a_turn_that_was_used_up() {
    let fov = all_in_view();
    let mut rng = StdRng::seed_from_u64(5);
    for (action, alive, moves) in [
        (PlayerAction::TookTurn, true, true),
        (PlayerAction::DidntTakeTurn, true, false),
        (PlayerAction::Exit, true, false),
        (PlayerAction::TookTurn, false, false),
    ] {
        let mut game = empty_game();
        let mut objects = vec![player(15, 15), orc(20, 15)];
        objects[0].alive = alive;
        end_turn(action, &fov, &mut game, &mut objects, &mut rng);
        assert_eq!(objects[1].pos(), if moves { (19, 15) } else { (20, 15) });
    }
}

#[test]
fn what_the_player_wants_decides_whether_the_turn_is_used_up() {
    let fov = all_in_view();
    let mut rng = StdRng::seed_from_u64(5);
    let cases = [
        (Intent::Move(1, 0), PlayerAction::TookTurn),
        (Intent::Wait, PlayerAction::TookTurn),
        (Intent::PickUp, PlayerAction::DidntTakeTurn),
        (Intent::Drop(0), PlayerAction::DidntTakeTurn),
        (Intent::UseItem(0, None), PlayerAction::DidntTakeTurn),
        (Intent::Descend, PlayerAction::DidntTakeTurn),
        (Intent::ShowInfo, PlayerAction::DidntTakeTurn),
        (Intent::Nothing, PlayerAction::DidntTakeTurn),
        (Intent::Quit, PlayerAction::Exit),
    ];
    for (intent, expected) in cases {
        let mut game = empty_game();
        let mut objects = vec![player(15, 15)];
        assert_eq!(player_turn(intent, &fov, &mut game, &mut objects, &mut rng), expected);
        let mut dead = vec![player(15, 15)];
        dead[0].alive = false;
        let after = player_turn(intent, &fov, &mut game, &mut dead, &mut rng);
        assert_eq!(after, if intent == Intent::Quit { PlayerAction::Exit } else { PlayerAction::DidntTakeTurn });
        assert_eq!(dead[0].pos(), (15, 15));
    }
}

#[test]
fn a_move_that_fails_does_not_use_up_the_turn() {
    let fov = all_in_view();
    let mut rng = StdRng::seed_from_u64(5);
    let mut game = empty_game();
    let mut objects = vec![player(11, 11), orc(12, 11), item_object(Item::Heal, 11, 12)];
    let blocker = GameObject::new(12, 12, '#', "pillar", white(), true);
    objects.push(blocker);
    for (dx, dy) in [(-1, 0), (0, -1), (-1, -1), (1, 1), (i32::MAX, 0), (0, i32::MIN)] {
        let action = player_turn(Intent::Move(dx, dy), &fov, &mut game, &mut objects, &mut rng);
        assert_eq!(action, PlayerAction::DidntTakeTurn, "by ({}, {})", dx, dy);
        assert_eq!(objects[PLAYER].pos(), (11, 11));
        end_turn(action, &fov, &mut game, &mut objects, &mut rng);
        assert_eq!(objects[1].pos(), (12, 11));
        assert_eq!(objects[PLAYER].fighter.unwrap().hp, 100);
    }
    assert_eq!(game.messages.len(), 0);
    objects[1].fighter.as_mut().unwrap().base_defense = 50;
    let action = player_turn(Intent::Move(1, 0), &fov, &mut game, &mut objects, &mut rng);
    assert_eq!(action, PlayerAction::TookTurn);
    assert_eq!(log_of(&game), vec!["player attacks orc but it has no effect!"]);
    let action = player_turn(Intent::Move(0, 1), &fov, &mut game, &mut objects, &mut rng);
    assert_eq!(action, PlayerAction::TookTurn);
    assert_eq!(objects[PLAYER].pos(), (11, 12));
}

#[test]
fn a_round_without_monsters_changes_nothing() {
    let fov = all_in_view();
    let mut rng = StdRng::seed_from_u64(9);
    let mut game = empty_game();
    game.messages.add("before", white());
    let mut objects = vec![
        player(15, 15),
        item_object(Item::Heal, 16, 15),
        GameObject::new(17, 15, '<', "stairs", white(), false),
    ];
    objects[0].fighter.as_mut().unwrap().hp = 42;
    for _ in 0..5 {
        monsters_turn(&fov, &mut game, &mut objects, &mut rng);
        end_turn(PlayerAction::TookTurn, &fov, &mut game, &mut objects, &mut rng);
    }
    assert_eq!(objects[0].fighter.unwrap().hp, 42);
    assert_eq!(objects[0].pos(), (15, 15));
    assert_eq!(objects[1].pos(), (16, 15));
    assert_eq!(objects[2].pos(), (17, 15));
    assert_eq!(log_of(&game), vec!["before"]);
}

#[test]
fn the_monsters_act_in_the_order_in_which_they_are_kept() {
    let fov = all_in_view();
    let mut rng = StdRng::seed_from_u64(9);
    let mut game = empty_game();
    let mut objects = vec![player(15, 15), orc(17, 15), orc(18, 15), orc(15, 16)];
    objects[0].fighter.as_mut().unwrap().hp = 3;
    objects[1].name = "first orc".to_string();
    objects[2].name = "second orc".to_string();
    objects[3].name = "third orc".to_string();
    monsters_turn(&fov, &mut game, &mut objects, &mut rng);
    assert_eq!(objects[1].pos(), (17, 15));
    assert_eq!(objects[2].pos(), (18, 15));
    assert_eq!(
        log_of(&game),
        vec![
            "first orc attacks player for 2 hit points.",
            "third orc attacks player for 2 hit points.",
            "You died!",
        ]
    );
    assert_eq!(objects[3].fighter.unwrap().xp, 35);
    assert_eq!(objects[1].fighter.unwrap().xp, 35);
}

#[test]
fn the_player_moves_picks_up_uses_and_drops() {
    let fov = all_in_view();
    let mut rng = StdRng::seed_from_u64(5);
    let mut game = empty_game();
    let mut objects = vec![player(15, 15), item_object(Item::Heal, 16, 15), orc(18, 15)];
    player_turn(Intent::PickUp, &fov, &mut game, &mut objects, &mut rng);
    assert_eq!(game.inventory.len(), 0);
    player_turn(Intent::Move(1, 0), &fov, &mut game, &mut objects, &mut rng);
    assert_eq!(objects[PLAYER].pos(), (16, 15));
    assert_eq!(item_at(&objects, 16, 15), Some(1));
    player_turn(Intent::PickUp, &fov, &mut game, &mut objects, &mut rng);
    assert_eq!(game.inventory.len(), 1);
    assert_eq!(objects.len(), 2);
    objects[PLAYER].fighter.as_mut().unwrap().hp = 10;
    player_turn(Intent::UseItem(3, None), &fov, &mut game, &mut objects, &mut rng);
    assert_eq!(objects[PLAYER].fighter.unwrap().hp, 10);
    player_turn(Intent::UseItem(0, None), &fov, &mut game, &mut objects, &mut rng);
    assert_eq!(objects[PLAYER].fighter.unwrap().hp, 50);
    assert_eq!(game.inventory.len(), 0);
    game.inventory.push(item_object(Item::Confuse, 0, 0));
    player_turn(Intent::Drop(1), &fov, &mut game, &mut objects, &mut rng);
    assert_eq!(game.inventory.len(), 1);
    player_turn(Intent::Drop(0), &fov, &mut game, &mut objects, &mut rng);
    assert_eq!(game.inventory.len(), 0);
    assert_eq!(objects[2].name, "scroll of confusion");
    assert_eq!(objects[2].pos(), (16, 15));
    player_turn(Intent::Move(1, 0), &fov, &mut game, &mut objects, &mut rng);
    assert_eq!(objects[PLAYER].pos(), (17, 15));
    player_turn(Intent::Move(1, 0), &fov, &mut game, &mut objects, &mut rng);
    assert_eq!(objects[PLAYER].pos(), (17, 15));
    assert_eq!(objects[1].fighter.unwrap().hp, 6);
}

#[test]
fn a_new_game_starts_on_the_first_level() {
    for seed in 0..20 {
        let mut rng = StdRng::seed_from_u64(seed);
        let (game, objects) = new_game(&mut rng);
        assert_eq!(game.dungeon_level, 1);
        assert!(game.inventory.is_empty());
        assert_eq!(
            log_of(&game),
            vec!["Welcom stranger! Prepare to parish in the Tombs of the Ancient Kinds."]
        );
        assert_eq!(game.messages.get(0).1, red());
        let hero = &objects[PLAYER];
        assert_eq!((hero.glyph, hero.name.as_str(), hero.color), ('@', "player", white()));
        assert!(hero.alive && hero.blocks);
        assert_eq!(
            hero.fighter,
            Some(Fighter {
                hp: 100,
                base_max_hp: 100,
                base_defense: 1,
                base_power: 4,
                xp: 0,
                on_death: DeathCallback::Player
            })
        );
        assert!(!game.game_map[hero.x as usize][hero.y as usize].blocked);
        assert_eq!(objects[objects.len() - 1].name, "stairs");
    }
}

#[test]
fn the_stairs_lead_to_a_new_level_and_a_rest() {
    let mut rng = StdRng::seed_from_u64(11);
    let (mut game, mut objects) = new_game(&mut rng);
    let fov = all_in_view();
    objects[PLAYER].fighter.as_mut().unwrap().hp = 30;
    game.inventory.push(item_object(Item::Heal, 0, 0));
    assert_eq!(player_on_stairs(&objects), objects[objects.len() - 1].pos() == objects[PLAYER].pos());
    let stairs = objects[objects.len() - 1].pos();
    let old_map = game.game_map.clone();
    if stairs != objects[PLAYER].pos() {
        player_turn(Intent::Descend, &fov, &mut game, &mut objects, &mut rng);
        assert_eq!(game.dungeon_level, 1);
        assert_eq!(objects[PLAYER].fighter.unwrap().hp, 30);
    }
    objects[PLAYER].set_pos(stairs.0, stairs.1);
    assert!(player_on_stairs(&objects));
    let action = player_turn(Intent::Descend, &fov, &mut game, &mut objects, &mut rng);
    assert_eq!(action, PlayerAction::DidntTakeTurn);
    assert_eq!(game.dungeon_level, 2);
    assert_eq!(objects[PLAYER].fighter.unwrap().hp, 80);
    assert_eq!(game.inventory.len(), 1);
    assert!(game.game_map != old_map);
    assert_eq!(objects[PLAYER].name, "player");
    assert_eq!(objects[objects.len() - 1].name, "stairs");
    assert_eq!(
        log_of(&game)[1..],
        [
            "You take a moment to rest, and recover your strength.",
            "After a rare moment of peace, you descend deeper into the heart of the dundeon...",
        ]
    );
    next_level(&mut game, &mut objects, &mut rng);
    assert_eq!(game.dungeon_level, 3);
    assert_eq!(objects[PLAYER].fighter.unwrap().hp, 100);
}

#[test]
fn a_level_costs_its_price_and_the_rest_is_kept() {
    let mut game = empty_game();
    let mut objects = vec![player(15, 15)];
    assert_eq!(LEVEL_UP_BASE + LEVEL_UP_FACTOR, 350);
    objects[0].fighter.as_mut().unwrap().xp = 349;
    assert!(!level_up_available(&objects));
    level_up(0, &mut game, &mut objects);
    assert_eq!(objects[0].level, 1);
    assert_eq!(objects[0].fighter.unwrap().xp, 349);
    assert_eq!(game.messages.len(), 0);
    objects[0].fighter.as_mut().unwrap().xp = 360;
    objects[0].fighter.as_mut().unwrap().hp = 50;
    assert!(level_up_available(&objects));
    level_up(0, &mut game, &mut objects);
    assert_eq!(objects[0].level, 2);
    assert_eq!(objects[0].fighter.unwrap().xp, 10);
    assert_eq!(objects[0].fighter.unwrap().base_max_hp, 120);
    assert_eq!(objects[0].fighter.unwrap().hp, 70);
    assert_eq!(log_of(&game), vec!["Your battle skills grow stronger!  You reached level 2!"]);
    objects[0].fighter.as_mut().unwrap().xp = 500;
    level_up(1, &mut game, &mut objects);
    assert_eq!(objects[0].level, 3);
    assert_eq!(objects[0].fighter.unwrap().xp, 0);
    assert_eq!(objects[0].fighter.unwrap().base_power, 5);
    objects[0].fighter.as_mut().unwrap().xp = 1000;
    level_up(2, &mut game, &mut objects);
    assert_eq!(objects[0].level, 4);
    assert_eq!(objects[0].fighter.unwrap().xp, 1000 - 650);
    assert_eq!(objects[0].fighter.unwrap().base_defense, 2);
    assert_eq!(objects[0].fighter.unwrap().base_max_hp, 120);
}

#[test]
fn what_is_seen_stays_explored() {
    let mut map = one_room();
    let mut fov = FovMap::new(MAP_WIDTH as usize, MAP_HEIGHT as usize);
    fov.set(11, 11, true);
    fov.set(10, 10, true);
    mark_explored(&mut map, &fov);
    assert!(map[11][11].explored && map[10][10].explored);
    assert!(!map[12][12].explored);
    assert!(map[10][10].blocked && !map[11][11].blocked);
    fov.set(11, 11, false);
    fov.set(12, 12, true);
    mark_explored(&mut map, &fov);
    assert!(map[11][11].explored && map[10][10].explored && map[12][12].explored);
    let explored = map.iter().flatten().filter(|t| t.explored).count();
    assert_eq!(explored, 3);
}
