use dungeon_core::codec::{decode_save, encode_save, get_u32, put_i32, put_u32};
use dungeon_core::codec::get_i32;
use dungeon_core::entity::{Ai, DeathCallback, Entity, Equipment, Fighter, Item, Slot};
use dungeon_core::inventory::Game;
use dungeon_core::tile::{GameMap, Tile};

fn sample_map() -> GameMap {
    let mut tiles = Vec::new();
    for x in 0..20 {
        let mut col = Vec::new();
        for y in 0..20 {
            if x == 0 || x == 19 || y == 0 || y == 19 {
                col.push(Tile::wall());
            } else if x == 7 && y == 9 {
                col.push(Tile::stairs());
            } else {
                col.push(Tile::empty());
            }
        }
        tiles.push(col);
    }
    GameMap { tiles }
}

fn sample_state() -> (Vec<Entity>, Game) {
    let mut player = Entity::new(3, 4, '@', "Player");
    player.fighter = Some(Fighter {
        max_hp: 30,
        hp: 17,
        defense: 2,
        base_damage: 5,
        on_death: DeathCallback::Player,
    });
    let mut kobold = Entity::new(9, 9, 'k', "kobold");
    kobold.fighter = Some(Fighter {
        max_hp: 10,
        hp: -4,
        defense: 0,
        base_damage: 3,
        on_death: DeathCallback::Monster,
    });
    kobold.ai = Some(Ai::Normal);
    let mut corpse = Entity::new(5, 5, '%', "remains of kobold");
    corpse.blocks = false;
    corpse.alive = false;
    let mut potion = Entity::new(2, 5, '!', "healing potion");
    potion.item = Some(Item::Heal);
    let mut sword = Entity::new(0, 0, '/', "sword");
    sword.item = Some(Item::Equipment);
    sword.equipment = Some(Equipment {
        slot: Slot::RightHand,
        equipped: true,
        damage_bonus: 1,
    });
    let entities = vec![player, kobold, corpse, potion];
    let game = Game {
        map: sample_map(),
        inventory: vec![sword],
        dungeon_level: 7,
    };
    (entities, game)
}

#[test]
fn save_round_trips_exactly() {
    // Round-trip: serialize then deserialize yields an identical
    // floor-entity sequence, inventory, map, and dungeon level.
    let (entities, game) = sample_state();
    let bytes = encode_save(&entities, &game);
    let decoded = decode_save(&bytes).expect("the encoding must parse back");
    assert_eq!(decoded.0, entities);
    assert_eq!(decoded.1, game);
}

#[test]
fn save_round_trips_extreme_numbers() {
    let mut odd = Entity::new(i32::MIN, i32::MAX, '\u{2588}', "");
    odd.fighter = Some(Fighter {
        max_hp: i32::MAX,
        hp: i32::MIN,
        defense: -1,
        base_damage: 0,
        on_death: DeathCallback::Monster,
    });
    let entities = vec![odd];
    let game = Game {
        map: sample_map(),
        inventory: Vec::new(),
        dungeon_level: u32::MAX,
    };
    let bytes = encode_save(&entities, &game);
    let decoded = decode_save(&bytes).expect("the encoding must parse back");
    assert_eq!(decoded.0, entities);
    assert_eq!(decoded.1, game);
}

#[test]
fn save_round_trips_unicode_names() {
    let named = Entity::new(1, 1, '\u{263A}', "h\u{e9}ros \u{1F409}");
    let entities = vec![named];
    let game = Game {
        map: sample_map(),
        inventory: Vec::new(),
        dungeon_level: 1,
    };
    let bytes = encode_save(&entities, &game);
    let decoded = decode_save(&bytes).expect("the encoding must parse back");
    assert_eq!(decoded.0[0].name, "h\u{e9}ros \u{1F409}".to_string());
    assert_eq!(decoded.0[0].glyph, '\u{263A}');
}

#[test]
fn truncated_save_is_rejected() {
    let (entities, game) = sample_state();
    let mut bytes = encode_save(&entities, &game);
    bytes.pop();
    assert!(decode_save(&bytes).is_none());
}

#[test]
fn trailing_garbage_is_rejected() {
    let (entities, game) = sample_state();
    let mut bytes = encode_save(&entities, &game);
    bytes.push(0);
    assert!(decode_save(&bytes).is_none());
}

#[test]
fn empty_input_is_rejected() {
    let bytes: Vec<u8> = Vec::new();
    assert!(decode_save(&bytes).is_none());
}

#[test]
fn corrupted_tag_byte_is_rejected() {
    let (entities, game) = sample_state();
    let mut bytes = encode_save(&entities, &game);
    // the first entity's x starts right after the 4-byte count; its sign
    // byte may only be 0 or 1
    bytes[4] = 9;
    assert!(decode_save(&bytes).is_none());
}

#[test]
fn u32_bytes_round_trip() {
    let mut out = Vec::new();
    put_u32(&mut out, 0xDEAD_BEEF);
    assert_eq!(out.len(), 4);
    assert_eq!(out, vec![0xEF, 0xBE, 0xAD, 0xDE]);
    let (v, p) = get_u32(&out, 0).unwrap();
    assert_eq!(v, 0xDEAD_BEEF);
    assert_eq!(p, 4);
}

#[test]
fn i32_bytes_round_trip() {
    for v in [0, 1, -1, 12345, -54321, i32::MIN, i32::MAX] {
        let mut out = Vec::new();
        put_i32(&mut out, v);
        let (w, p) = get_i32(&out, 0).unwrap();
        assert_eq!(w, v);
        assert_eq!(p, 5);
    }
}
