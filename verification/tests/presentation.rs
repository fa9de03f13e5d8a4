use dungeon_core::engine::{
    ai_phase, ai_take_turn, check_ai_room, check_player_attack_room, check_world, new_game,
    next_level, parse_command, AiEvent, Command,
};
use dungeon_core::entity::{Ai, DeathCallback, Entity, Fighter};
use dungeon_core::inventory::Game;
use dungeon_core::render::{draw_bar, inventory_labels, menu_index, push_i32, render_all};
use dungeon_core::seen::SeenSet;
use dungeon_core::tile::{make_map, GameMap, Tile};

fn walled_map() -> GameMap {
    let mut tiles = Vec::new();
    for x in 0..20 {
        let mut col = Vec::new();
        for y in 0..20 {
            if x == 0 || x == 19 || y == 0 || y == 19 {
                col.push(Tile::wall());
            } else {
                col.push(Tile::empty());
            }
        }
        tiles.push(col);
    }
    GameMap { tiles }
}

fn fresh_player() -> Entity {
    let mut player = Entity::new(1, 1, '@', "Player");
    player.fighter = Some(Fighter {
        max_hp: 30,
        hp: 30,
        defense: 2,
        base_damage: 5,
        on_death: DeathCallback::Player,
    });
    player
}

fn fresh_kobold(x: i32, y: i32) -> Entity {
    let mut npc = Entity::new(x, y, 'k', "kobold");
    npc.fighter = Some(Fighter {
        max_hp: 10,
        hp: 10,
        defense: 0,
        base_damage: 3,
        on_death: DeathCallback::Monster,
    });
    npc.ai = Some(Ai::Normal);
    npc
}

#[test]
fn command_characters_decode_exactly() {
    assert_eq!(parse_command('w'), Command::Move(-1, 0));
    assert_eq!(parse_command('e'), Command::Move(1, 0));
    assert_eq!(parse_command('n'), Command::Move(0, -1));
    assert_eq!(parse_command('s'), Command::Move(0, 1));
    assert_eq!(parse_command('g'), Command::PickUp);
    assert_eq!(parse_command('i'), Command::Inventory);
    assert_eq!(parse_command('>'), Command::Stairs);
    assert_eq!(parse_command('<'), Command::Stairs);
    assert_eq!(parse_command('Q'), Command::Quit);
    assert_eq!(parse_command('x'), Command::Other);
    assert_eq!(parse_command('W'), Command::Other);
}

#[test]
fn menu_letters_map_to_indices() {
    assert_eq!(menu_index('a', 3), Some(0));
    assert_eq!(menu_index('c', 3), Some(2));
    assert_eq!(menu_index('d', 3), None);
    assert_eq!(menu_index('!', 3), None);
}

#[test]
fn gauge_renders_numbers_and_bar() {
    let s = draw_bar("HP: ", 4, 30, 30);
    // value/max of the width is 4, so 5 block characters, then the figures
    assert_eq!(
        s,
        "HP: \u{2588}\u{2588}\u{2588}\u{2588}\u{2588} 30\\30".to_string()
    );
    let s2 = draw_bar("HP: ", 4, 15, 30);
    // half the bar: 3 blocks, 3 spaces of padding, then the separator
    assert_eq!(s2, "HP: \u{2588}\u{2588}\u{2588}    15\\30".to_string());
}

#[test]
fn decimal_rendering_is_exact() {
    let mut s = String::new();
    push_i32(&mut s, 0);
    push_i32(&mut s, -1);
    push_i32(&mut s, 12345);
    push_i32(&mut s, i32::MIN);
    assert_eq!(s, "0-112345-2147483648".to_string());
}

#[test]
fn seen_set_membership() {
    let mut seen = SeenSet::new();
    assert!(!seen.contains(3, 4));
    seen.insert(3, 4);
    seen.insert(5, 6);
    assert!(seen.contains(3, 4));
    assert!(seen.contains(5, 6));
    assert!(!seen.contains(4, 3));
    seen.clear();
    assert!(!seen.contains(3, 4));
}

#[test]
fn hidden_cells_render_blank_and_entities_overlay() {
    let map = walled_map();
    let mut seen = SeenSet::new();
    seen.insert(1, 1);
    seen.insert(2, 1);
    let entities = vec![fresh_player()];
    let s = render_all(&entities, &map, &seen);
    let lines: Vec<&str> = s.lines().collect();
    assert_eq!(lines.len(), 20);
    // row 0 is entirely out of sight
    assert_eq!(lines[0], " ".repeat(20));
    // row 1 shows the player at column 1 and floor at column 2
    let expected = format!(" @.{}", " ".repeat(17));
    assert_eq!(lines[1], expected);
}

#[test]
fn unseen_entities_are_not_drawn() {
    let map = walled_map();
    let mut seen = SeenSet::new();
    seen.insert(2, 1);
    let entities = vec![fresh_player()];
    let s = render_all(&entities, &map, &seen);
    let lines: Vec<&str> = s.lines().collect();
    // the player's own cell is hidden, so only the visible floor shows
    let expected = format!("  .{}", " ".repeat(17));
    assert_eq!(lines[1], expected);
}

#[test]
fn stairs_cell_renders_its_marker() {
    let mut map = walled_map();
    map.tiles[3][1] = Tile::stairs();
    let mut seen = SeenSet::new();
    seen.insert(3, 1);
    let entities: Vec<Entity> = Vec::new();
    let s = render_all(&entities, &map, &seen);
    let lines: Vec<&str> = s.lines().collect();
    // a visible stairs cell prints its marker and then the floor character,
    // making that row one character longer
    let expected = format!("   >.{}", " ".repeat(16));
    assert_eq!(lines[1], expected);
}

#[test]
fn inventory_labels_show_worn_slots() {
    let mut sword = Entity::new(0, 0, '/', "sword");
    sword.item = Some(dungeon_core::entity::Item::Equipment);
    sword.equipment = Some(dungeon_core::entity::Equipment {
        slot: dungeon_core::entity::Slot::RightHand,
        equipped: true,
        damage_bonus: 1,
    });
    let mut potion = Entity::new(0, 0, '!', "healing potion");
    potion.item = Some(dungeon_core::entity::Item::Heal);
    let labels = inventory_labels(&vec![sword, potion]);
    assert_eq!(labels.len(), 2);
    assert_eq!(labels[0], "sword (on right hand)".to_string());
    assert_eq!(labels[1], "healing potion".to_string());
}

#[test]
fn fresh_maps_have_walls_and_one_stairs() {
    let m = make_map();
    let mut stairs = 0;
    for x in 0..20usize {
        for y in 0..20usize {
            let t = m.tiles[x][y];
            if x == 0 || x == 19 || y == 0 || y == 19 {
                assert!(t.blocked);
            }
            if t.stairs {
                stairs += 1;
                assert!((1..18).contains(&(x as i32)));
                assert!((1..18).contains(&(y as i32)));
            }
        }
    }
    assert_eq!(stairs, 1);
}

#[test]
fn new_games_start_with_the_fixed_cast() {
    let (entities, game) = new_game();
    assert_eq!(entities.len(), 5);
    assert_eq!(entities[0].name, "Player".to_string());
    assert_eq!(entities[0].pos(), (1, 1));
    assert_eq!(entities[0].fighter.unwrap().max_hp, 30);
    assert_eq!(entities[1].name, "kobold".to_string());
    assert_eq!(entities[2].name, "kobold".to_string());
    assert_eq!(entities[3].name, "healing potion".to_string());
    assert_eq!(entities[4].name, "sword".to_string());
    assert_eq!(game.dungeon_level, 1);
    assert!(game.inventory.is_empty());
    assert!(check_world(&entities, &game));
    assert!(check_ai_room(&entities, &game));
    assert!(check_player_attack_room(&entities, &game));
}

#[test]
fn next_level_spawns_fresh_monsters_in_bounds() {
    let (mut entities, mut game) = new_game();
    next_level(&mut entities, &mut game);
    assert_eq!(game.dungeon_level, 2);
    assert_eq!(entities.len(), 3);
    for npc in &entities[1..] {
        let (x, y) = npc.pos();
        assert!((1..18).contains(&x));
        assert!((1..18).contains(&y));
        assert_eq!(npc.fighter.unwrap().base_damage, 4);
    }
}

#[test]
fn dormant_monsters_do_not_act() {
    let mut entities = vec![fresh_player(), fresh_kobold(10, 10)];
    let game = Game {
        map: walled_map(),
        inventory: Vec::new(),
        dungeon_level: 1,
    };
    let seen = SeenSet::new();
    let r = ai_take_turn(1, &mut entities, &seen, &game);
    assert_eq!(r, AiEvent::Dormant);
    assert_eq!(entities[1].pos(), (10, 10));
}

#[test]
fn visible_distant_monsters_step_towards_the_player() {
    let mut entities = vec![fresh_player(), fresh_kobold(10, 1)];
    let game = Game {
        map: walled_map(),
        inventory: Vec::new(),
        dungeon_level: 1,
    };
    let mut seen = SeenSet::new();
    seen.insert(10, 1);
    let r = ai_take_turn(1, &mut entities, &seen, &game);
    match r {
        AiEvent::Acted(_) => {}
        other => panic!("expected an action, got {:?}", other),
    }
    // one greedy step straight west
    assert_eq!(entities[1].pos(), (9, 1));
}

#[test]
fn adjacent_monsters_attack_the_player() {
    let mut entities = vec![fresh_player(), fresh_kobold(2, 1)];
    let game = Game {
        map: walled_map(),
        inventory: Vec::new(),
        dungeon_level: 1,
    };
    let mut seen = SeenSet::new();
    seen.insert(2, 1);
    let events = ai_phase(&mut entities, &seen, &game);
    // one event per floor entry: the player is passed over, the kobold acts
    assert_eq!(events.len(), 2);
    assert_eq!(events[0], AiEvent::Skipped);
    let hp = entities[0].fighter.unwrap().hp;
    // kobold base damage 3, roll in [-2, 4): damage within [1, 6]
    assert!(24 <= hp && hp <= 29);
}

#[test]
fn downed_players_are_left_alone() {
    let mut player = fresh_player();
    player.fighter = Some(Fighter {
        max_hp: 30,
        hp: 0,
        defense: 2,
        base_damage: 5,
        on_death: DeathCallback::Player,
    });
    let mut entities = vec![player, fresh_kobold(2, 1)];
    let game = Game {
        map: walled_map(),
        inventory: Vec::new(),
        dungeon_level: 1,
    };
    let mut seen = SeenSet::new();
    seen.insert(2, 1);
    let r = ai_take_turn(1, &mut entities, &seen, &game);
    assert_eq!(r, AiEvent::Waited);
    assert_eq!(entities[0].fighter.unwrap().hp, 0);
}

#[test]
fn world_checker_rejects_a_broken_world() {
    let entities = vec![fresh_player()];
    let mut game = Game {
        map: walled_map(),
        inventory: Vec::new(),
        dungeon_level: 1,
    };
    assert!(check_world(&entities, &game));
    // a map missing a column is rejected
    game.map.tiles.pop();
    assert!(!check_world(&entities, &game));
    let no_entities: Vec<Entity> = Vec::new();
    let game2 = Game {
        map: walled_map(),
        inventory: Vec::new(),
        dungeon_level: 1,
    };
    assert!(!check_world(&no_entities, &game2));
}
