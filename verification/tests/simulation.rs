use dungeon_core::combat::attack_with_roll;
use dungeon_core::engine::{
    ai_phase_due, handle_command, move_by, Command, CommandEvent, MoveOutcome, PlayerAction,
};
use dungeon_core::entity::{Ai, DeathCallback, Entity, Fighter, Item, Slot};
use dungeon_core::entity::Equipment;
use dungeon_core::inventory::{
    cast_heal, get_equipped_in_slot, pick_item_up, toggle_equipment, use_item, EquipEvent, Game,
    UseResult,
};
use dungeon_core::tile::{GameMap, Tile};

fn mk_player() -> Entity {
    let mut player = Entity::new(1, 1, '@', "Player");
    player.fighter = Some(Fighter {
        max_hp: 30,
        hp: 30,
        defense: 2,
        base_damage: 5,
        on_death: DeathCallback::Player,
    });
    player
}

fn mk_kobold(x: i32, y: i32) -> Entity {
    let mut npc = Entity::new(x, y, 'k', "kobold");
    npc.fighter = Some(Fighter {
        max_hp: 10,
        hp: 10,
        defense: 0,
        base_damage: 3,
        on_death: DeathCallback::Monster,
    });
    npc.ai = Some(Ai::Normal);
    npc
}

fn mk_sword(equipped: bool) -> Entity {
    let mut sword = Entity::new(2, 2, '/', "sword");
    sword.item = Some(Item::Equipment);
    sword.equipment = Some(Equipment {
        slot: Slot::RightHand,
        equipped,
        damage_bonus: 1,
    });
    sword
}

fn mk_potion() -> Entity {
    let mut potion = Entity::new(2, 5, '!', "healing potion");
    potion.item = Some(Item::Heal);
    potion
}

fn open_map() -> GameMap {
    let mut tiles = Vec::new();
    for x in 0..20 {
        let mut col = Vec::new();
        for y in 0..20 {
            if x == 0 || x == 19 || y == 0 || y == 19 {
                col.push(Tile::wall());
            } else {
                col.push(Tile::empty());
            }
        }
        tiles.push(col);
    }
    GameMap { tiles }
}

fn empty_game() -> Game {
    Game {
        map: open_map(),
        inventory: Vec::new(),
        dungeon_level: 1,
    }
}

#[test]
fn attack_with_zero_roll_deals_base_damage() {
    // Scenario: the player (base damage 5, no equipment) hits a kobold
    // (10 hp) under a forced roll of 0: damage 5, kobold at 5 hp, alive.
    let player = mk_player();
    let mut kobold = mk_kobold(2, 1);
    let game = empty_game();
    let ev = attack_with_roll(&player, &mut kobold, &game, 0);
    assert_eq!(ev.damage, 5);
    assert!(ev.hit);
    assert!(!ev.killed);
    assert_eq!(ev.attacker, "Player".to_string());
    assert_eq!(ev.defender, "kobold".to_string());
    assert_eq!(kobold.fighter.unwrap().hp, 5);
    assert!(kobold.alive);
}

#[test]
fn three_hits_fire_the_monster_death_transition() {
    // Scenario: repeating the zero-roll attack drives the kobold to 0 hp
    // or below; the death transition fires exactly once and leaves an
    // inert corpse.
    let player = mk_player();
    let mut kobold = mk_kobold(2, 1);
    let game = empty_game();
    for _ in 0..3 {
        attack_with_roll(&player, &mut kobold, &game, 0);
    }
    assert!(!kobold.alive);
    assert_eq!(kobold.glyph, '%');
    assert_eq!(kobold.name, "remains of kobold".to_string());
    assert!(!kobold.blocks);
    assert!(kobold.fighter.is_none());
    assert!(kobold.ai.is_none());
}

#[test]
fn second_hit_kills_and_reports_it() {
    let player = mk_player();
    let mut kobold = mk_kobold(2, 1);
    let game = empty_game();
    let first = attack_with_roll(&player, &mut kobold, &game, 0);
    assert!(!first.killed);
    let second = attack_with_roll(&player, &mut kobold, &game, 0);
    assert!(second.killed);
    assert!(!kobold.alive);
}

#[test]
fn nonpositive_damage_total_changes_nothing() {
    // Determinism modulo randomness: a roll that makes the total damage
    // nonpositive leaves the defender untouched.
    let mut weakling = mk_player();
    weakling.fighter = Some(Fighter {
        max_hp: 30,
        hp: 30,
        defense: 2,
        base_damage: 1,
        on_death: DeathCallback::Player,
    });
    let mut kobold = mk_kobold(2, 1);
    let game = empty_game();
    let ev = attack_with_roll(&weakling, &mut kobold, &game, -2);
    assert_eq!(ev.damage, -1);
    assert!(!ev.hit);
    assert!(!ev.killed);
    assert_eq!(kobold.fighter.unwrap().hp, 10);
    assert!(kobold.alive);
}

#[test]
fn equipped_sword_raises_damage_by_exactly_one() {
    // Scenario: an unequipped right-hand sword (bonus 1) in the inventory
    // adds nothing; once equipped, the same fixed-roll attack deals
    // exactly one more point.
    let player = mk_player();
    let mut game = empty_game();
    game.inventory.push(mk_sword(false));

    let mut target_a = mk_kobold(2, 1);
    let before = attack_with_roll(&player, &mut target_a, &game, 0);
    assert_eq!(before.damage, 5);

    let mut entities = vec![mk_player()];
    let r = use_item(0, &mut game.inventory, &mut entities);
    assert_eq!(r, Some(UseResult::UsedAndKept));
    assert!(game.inventory[0].equipment.unwrap().equipped);

    let mut target_b = mk_kobold(2, 1);
    let after = attack_with_roll(&player, &mut target_b, &game, 0);
    assert_eq!(after.damage, 6);
    assert_eq!(target_b.fighter.unwrap().hp, 4);
}

#[test]
fn heal_clamps_at_max_hp() {
    // Idempotence of the clamp: healing never raises hp above max_hp.
    let mut player = mk_player();
    player.fighter = Some(Fighter {
        max_hp: 30,
        hp: 28,
        defense: 2,
        base_damage: 5,
        on_death: DeathCallback::Player,
    });
    player.heal(1000);
    assert_eq!(player.fighter.unwrap().hp, 30);
    player.heal(4);
    assert_eq!(player.fighter.unwrap().hp, 30);
}

#[test]
fn heal_adds_exact_amount_below_max() {
    let mut player = mk_player();
    player.fighter = Some(Fighter {
        max_hp: 30,
        hp: 3,
        defense: 2,
        base_damage: 5,
        on_death: DeathCallback::Player,
    });
    player.heal(4);
    assert_eq!(player.fighter.unwrap().hp, 7);
}

#[test]
fn potion_at_full_health_is_cancelled_and_kept() {
    // Scenario: using a heal potion at full hp cancels the action and
    // consumes nothing.
    let mut entities = vec![mk_player()];
    let mut inventory = vec![mk_potion()];
    let r = use_item(0, &mut inventory, &mut entities);
    assert_eq!(r, Some(UseResult::Cancelled));
    assert_eq!(inventory.len(), 1);
    assert_eq!(entities[0].fighter.unwrap().hp, 30);
}

#[test]
fn potion_below_full_health_heals_four_and_is_consumed() {
    let mut player = mk_player();
    player.fighter = Some(Fighter {
        max_hp: 30,
        hp: 20,
        defense: 2,
        base_damage: 5,
        on_death: DeathCallback::Player,
    });
    let mut entities = vec![player];
    let mut inventory = vec![mk_potion()];
    let r = use_item(0, &mut inventory, &mut entities);
    assert_eq!(r, Some(UseResult::UsedUp));
    assert_eq!(inventory.len(), 0);
    assert_eq!(entities[0].fighter.unwrap().hp, 24);
}

#[test]
fn cast_heal_without_a_fighter_is_cancelled() {
    let mut entities = vec![Entity::new(1, 1, '@', "ghost")];
    let r = cast_heal(&mut entities);
    assert_eq!(r, UseResult::Cancelled);
}

#[test]
fn use_item_on_a_non_item_reports_none() {
    let mut entities = vec![mk_player()];
    let mut inventory = vec![mk_kobold(3, 3)];
    let r = use_item(0, &mut inventory, &mut entities);
    assert_eq!(r, None);
    assert_eq!(inventory.len(), 1);
}

#[test]
fn full_inventory_refuses_pickup() {
    // Scenario: with 26 items held, picking up a 27th leaves the floor
    // entity in place and the inventory length unchanged.
    let mut entities = vec![mk_player(), mk_potion()];
    let mut inventory = Vec::new();
    for _ in 0..26 {
        inventory.push(mk_potion());
    }
    let picked = pick_item_up(1, &mut entities, &mut inventory);
    assert!(!picked);
    assert_eq!(entities.len(), 2);
    assert_eq!(inventory.len(), 26);
}

#[test]
fn pickup_moves_the_item_into_the_inventory() {
    let mut entities = vec![mk_player(), mk_potion()];
    let mut inventory = Vec::new();
    let picked = pick_item_up(1, &mut entities, &mut inventory);
    assert!(picked);
    assert_eq!(entities.len(), 1);
    assert_eq!(inventory.len(), 1);
    assert_eq!(inventory[0].name, "healing potion".to_string());
}

#[test]
fn equip_evicts_the_slot_occupant() {
    // At most one worn entry per slot: equipping the second sword first
    // takes the first one off.
    let mut inventory = vec![mk_sword(true), mk_sword(false)];
    let r = toggle_equipment(1, &mut inventory);
    assert_eq!(r, UseResult::UsedAndKept);
    assert!(!inventory[0].equipment.unwrap().equipped);
    assert!(inventory[1].equipment.unwrap().equipped);
    let worn = get_equipped_in_slot(Slot::RightHand, &inventory);
    assert_eq!(worn, Some(1));
}

#[test]
fn toggle_on_a_worn_entry_takes_it_off() {
    let mut inventory = vec![mk_sword(true)];
    let r = toggle_equipment(0, &mut inventory);
    assert_eq!(r, UseResult::UsedAndKept);
    assert!(!inventory[0].equipment.unwrap().equipped);
    assert_eq!(get_equipped_in_slot(Slot::RightHand, &inventory), None);
}

#[test]
fn equip_demands_an_item_block() {
    let mut odd = Entity::new(0, 0, '?', "oddity");
    odd.equipment = Some(Equipment {
        slot: Slot::Head,
        equipped: false,
        damage_bonus: 0,
    });
    assert_eq!(odd.equip(), EquipEvent::NotAnItem);
    let mut plain = mk_potion();
    assert_eq!(plain.equip(), EquipEvent::NotEquipment);
    let mut sword = mk_sword(true);
    assert_eq!(sword.equip(), EquipEvent::NoChange);
    let mut sword2 = mk_sword(false);
    assert_eq!(sword2.equip(), EquipEvent::Done(Slot::RightHand));
    assert!(sword2.equipment.unwrap().equipped);
}

#[test]
fn move_into_a_wall_is_blocked() {
    let mut entities = vec![mk_player()];
    let game = empty_game();
    // the player stands at (1, 1); (0, 1) is border wall
    let r = move_by(0, -1, 0, &mut entities, &game);
    assert_eq!(r, MoveOutcome::Blocked);
    assert_eq!(entities[0].pos(), (1, 1));
}

#[test]
fn move_into_open_floor_translates() {
    let mut entities = vec![mk_player()];
    let game = empty_game();
    let r = move_by(0, 1, 0, &mut entities, &game);
    assert_eq!(r, MoveOutcome::Moved);
    assert_eq!(entities[0].pos(), (2, 1));
}

#[test]
fn move_into_a_fighter_resolves_combat() {
    let mut entities = vec![mk_player(), mk_kobold(2, 1)];
    let game = empty_game();
    let r = move_by(0, 1, 0, &mut entities, &game);
    match r {
        MoveOutcome::Fought(ev) => {
            // the roll is random, but the total is pinned to base 5 +/- it
            assert!(3 <= ev.damage && ev.damage <= 8);
            assert!(ev.hit);
            let hp = entities[1].fighter.unwrap().hp;
            assert_eq!(hp, 10 - ev.damage);
        }
        other => panic!("expected combat, got {:?}", other),
    }
    // the player did not move
    assert_eq!(entities[0].pos(), (1, 1));
}

#[test]
fn dead_monsters_do_not_block_movement() {
    let mut entities = vec![mk_player(), mk_kobold(2, 1)];
    let game = empty_game();
    // beat the kobold down with fixed rolls
    let player = mk_player();
    for _ in 0..3 {
        attack_with_roll(&player, &mut entities[1], &game, 0);
    }
    assert!(!entities[1].alive);
    // now the corpse's cell is free to walk onto
    let r = move_by(0, 1, 0, &mut entities, &game);
    assert_eq!(r, MoveOutcome::Moved);
    assert_eq!(entities[0].pos(), (2, 1));
}

#[test]
fn stairs_descend_increments_level_and_resets_floor() {
    // Scenario: descending from a stairs tile bumps the dungeon level by
    // one, cuts the floor down to the player, spawns the new monsters,
    // and does not consume a turn.
    let mut game = empty_game();
    game.map.tiles[1][1] = Tile::stairs();
    let mut entities = vec![mk_player(), mk_kobold(5, 5), mk_potion()];
    let (action, _event) = handle_command(Command::Stairs, &mut entities, &mut game);
    assert_eq!(action, PlayerAction::DidntTakeTurn);
    assert_eq!(game.dungeon_level, 2);
    assert_eq!(entities.len(), 3);
    assert_eq!(entities[0].name, "Player".to_string());
    assert_eq!(entities[1].name, "kobold".to_string());
    assert_eq!(entities[2].name, "kobold".to_string());
    assert_eq!(entities[1].fighter.unwrap().base_damage, 4);
    assert!(entities[1].ai.is_some());
}

#[test]
fn stairs_elsewhere_do_nothing() {
    let mut game = empty_game();
    let mut entities = vec![mk_player()];
    let (action, _event) = handle_command(Command::Stairs, &mut entities, &mut game);
    assert_eq!(action, PlayerAction::DidntTakeTurn);
    assert_eq!(game.dungeon_level, 1);
    assert_eq!(entities.len(), 1);
}

#[test]
fn quit_command_exits_without_mutation() {
    let mut game = empty_game();
    let mut entities = vec![mk_player()];
    let (action, _event) = handle_command(Command::Quit, &mut entities, &mut game);
    assert_eq!(action, PlayerAction::Exit);
    assert_eq!(entities.len(), 1);
    assert_eq!(entities[0].pos(), (1, 1));
}

#[test]
fn pickup_command_takes_a_turn_even_when_full() {
    let mut game = empty_game();
    for _ in 0..26 {
        game.inventory.push(mk_potion());
    }
    let mut under_player = mk_potion();
    under_player.x = 1;
    under_player.y = 1;
    let mut entities = vec![mk_player(), under_player];
    let (action, _event) = handle_command(Command::PickUp, &mut entities, &mut game);
    assert_eq!(action, PlayerAction::TookTurn);
    assert_eq!(entities.len(), 2);
    assert_eq!(game.inventory.len(), 26);
}

#[test]
fn pickup_command_without_an_item_does_not_take_a_turn() {
    let mut game = empty_game();
    let mut entities = vec![mk_player()];
    let (action, _event) = handle_command(Command::PickUp, &mut entities, &mut game);
    assert_eq!(action, PlayerAction::DidntTakeTurn);
}

#[test]
fn player_death_keeps_the_fighter_record() {
    let kobold_boss = mk_kobold(2, 1);
    let mut player = mk_player();
    player.fighter = Some(Fighter {
        max_hp: 30,
        hp: 1,
        defense: 2,
        base_damage: 5,
        on_death: DeathCallback::Player,
    });
    let game = empty_game();
    let ev = attack_with_roll(&kobold_boss, &mut player, &game, 0);
    assert!(ev.killed);
    assert!(!player.alive);
    assert_eq!(player.glyph, '%');
    // unlike a monster, the player keeps its record and name
    assert!(player.fighter.is_some());
    assert_eq!(player.name, "Player".to_string());
    assert_eq!(player.fighter.unwrap().hp, 1 - 3);
}

#[test]
fn item_use_counts_as_a_turn() {
    // spec: an item use counts as a taken turn, so the monsters move after
    // it — here the engine reports TookTurn for a performed use
    let mut player = mk_player();
    player.fighter = Some(Fighter {
        max_hp: 30,
        hp: 20,
        defense: 2,
        base_damage: 5,
        on_death: DeathCallback::Player,
    });
    let mut entities = vec![player];
    let mut game = empty_game();
    game.inventory.push(mk_potion());
    let (action, event) = handle_command(Command::UseItem(0), &mut entities, &mut game);
    assert_eq!(action, PlayerAction::TookTurn);
    assert_eq!(event, CommandEvent::ItemUsed(Some(UseResult::UsedUp)));
    assert_eq!(game.inventory.len(), 0);
    assert_eq!(entities[0].fighter.unwrap().hp, 24);
    assert!(ai_phase_due(action, &entities));
}

#[test]
fn equipment_toggle_counts_as_a_turn() {
    let mut entities = vec![mk_player()];
    let mut game = empty_game();
    game.inventory.push(mk_sword(false));
    let (action, event) = handle_command(Command::UseItem(0), &mut entities, &mut game);
    assert_eq!(action, PlayerAction::TookTurn);
    assert_eq!(event, CommandEvent::ItemUsed(Some(UseResult::UsedAndKept)));
    assert!(game.inventory[0].equipment.unwrap().equipped);
}

#[test]
fn cancelled_item_use_takes_no_turn() {
    // at full health the potion use is cancelled: nothing consumed, and
    // no turn passes to the monsters
    let mut entities = vec![mk_player()];
    let mut game = empty_game();
    game.inventory.push(mk_potion());
    let (action, event) = handle_command(Command::UseItem(0), &mut entities, &mut game);
    assert_eq!(action, PlayerAction::DidntTakeTurn);
    assert_eq!(event, CommandEvent::ItemUsed(Some(UseResult::Cancelled)));
    assert_eq!(game.inventory.len(), 1);
    assert!(!ai_phase_due(action, &entities));
}

#[test]
fn opening_the_menu_alone_takes_no_turn() {
    let mut entities = vec![mk_player()];
    let mut game = empty_game();
    let (action, event) = handle_command(Command::Inventory, &mut entities, &mut game);
    assert_eq!(action, PlayerAction::DidntTakeTurn);
    assert_eq!(event, CommandEvent::NoEvent);
}

#[test]
fn dead_players_gate_the_ai_phase_off() {
    let mut corpse = mk_player();
    corpse.alive = false;
    let entities = vec![corpse];
    assert!(!ai_phase_due(PlayerAction::TookTurn, &entities));
    let alive = vec![mk_player()];
    assert!(ai_phase_due(PlayerAction::TookTurn, &alive));
    assert!(!ai_phase_due(PlayerAction::DidntTakeTurn, &alive));
    assert!(!ai_phase_due(PlayerAction::Exit, &alive));
}
