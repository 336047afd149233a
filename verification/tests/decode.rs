use battle_monitor::character::Character;
use battle_monitor::grid::{grid_position, raw_index};
use battle_monitor::hex::{parse_hex_i32, parse_hex_i64, to_hex};

#[test]
fn example_chunk_decodes() {
    let c = Character::from("e|Hero|cuid1|0|a|64|64|32|32|0|0|0").unwrap();
    assert_eq!(c.pos_in_grid, 0);
    assert_eq!(c.name, "Hero");
    assert_eq!(c.lv, 10);
    assert_eq!(c.hp, 100);
    assert_eq!(c.hp_max, 100);
    assert_eq!(c.mp, 50);
    assert_eq!(c.mp_max, 50);
}

#[test]
fn short_record_yields_neutral_entity() {
    let c = Character::from("e|Hero|cuid1").unwrap();
    assert_eq!(c.pos_in_grid, -1);
    assert_eq!(c.name, "");
    assert_eq!(c.lv, 0);
    assert_eq!(c.hp, 0);
    assert_eq!(c.hp_max, 0);
    assert_eq!(c.mp, 0);
    assert_eq!(c.mp_max, 0);
}

#[test]
fn malformed_numeric_field_fails_only_this_record() {
    assert!(Character::from("e|Hero|cuid1|0|xyz|64|64|32|32|0|0|0").is_none());
    assert!(Character::from("zz|Hero|cuid1|0|a|64|64|32|32|0|0|0").is_none());
    assert!(Character::from("e|Hero|cuid1|0|a||64|32|32|0|0|0").is_none());
}

#[test]
fn fields_beyond_the_twelfth_are_ignored() {
    let c = Character::from("e|Hero|cuid1|0|a|64|64|32|32|0|0|0|junk|more").unwrap();
    assert_eq!(c.pos_in_grid, 0);
    assert_eq!(c.name, "Hero");
}

#[test]
fn upper_case_hex_is_accepted() {
    let c = Character::from("E|Hero|cuid1|0|A|64|64|32|32|0|0|0").unwrap();
    assert_eq!(c.pos_in_grid, 0);
    assert_eq!(c.lv, 10);
}

#[test]
fn default_is_the_neutral_entity() {
    let c = Character::default();
    assert_eq!(c.pos_in_grid, -1);
    assert_eq!(c.name, "");
    assert_eq!(c.lv, 0);
    assert_eq!(c.hp, 0);
    assert_eq!(c.hp_max, 0);
    assert_eq!(c.mp, 0);
    assert_eq!(c.mp_max, 0);
}

#[test]
fn grid_mapping_matches_the_seating_order() {
    let pairs: [(i32, i32); 20] = [
        (14, 0),
        (12, 1),
        (10, 2),
        (11, 3),
        (13, 4),
        (19, 5),
        (17, 6),
        (15, 7),
        (16, 8),
        (18, 9),
        (9, 10),
        (7, 11),
        (5, 12),
        (6, 13),
        (8, 14),
        (4, 15),
        (2, 16),
        (0, 17),
        (1, 18),
        (3, 19),
    ];
    for (raw, grid) in pairs {
        assert_eq!(grid_position(raw), grid);
        assert_eq!(raw_index(grid), raw);
    }
}

#[test]
fn unknown_raw_index_is_unplaced() {
    assert_eq!(grid_position(20), -1);
    assert_eq!(grid_position(-1), -1);
    assert_eq!(grid_position(255), -1);
    assert_eq!(grid_position(i32::MAX), -1);
}

#[test]
fn hex_parsing_is_exact() {
    assert_eq!(parse_hex_i32("0"), Some(0));
    assert_eq!(parse_hex_i32("ff"), Some(255));
    assert_eq!(parse_hex_i32("FF"), Some(255));
    assert_eq!(parse_hex_i32("7fffffff"), Some(i32::MAX));
    assert_eq!(parse_hex_i32("80000000"), None);
    assert_eq!(parse_hex_i32(""), None);
    assert_eq!(parse_hex_i32("g"), None);
    assert_eq!(parse_hex_i32("-1"), None);
    assert_eq!(parse_hex_i64("7fffffffffffffff"), Some(i64::MAX));
    assert_eq!(parse_hex_i64("8000000000000000"), None);
    assert_eq!(parse_hex_i64("dead_beef"), None);
}

#[test]
fn hex_rendering_round_trips() {
    assert_eq!(to_hex(0), "0");
    assert_eq!(to_hex(10), "a");
    assert_eq!(to_hex(255), "ff");
    assert_eq!(to_hex(i32::MAX), "7fffffff");
    assert_eq!(parse_hex_i32(&to_hex(123456)), Some(123456));
}
