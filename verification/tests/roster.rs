use battle_monitor::character::Character;
use battle_monitor::roster::{build_roster, Roster};

fn entity(pos: i32, name: &str, lv: i32, hp: i32, hp_max: i32, mp: i32, mp_max: i32) -> Character {
    Character {
        pos_in_grid: pos,
        name: name.to_owned(),
        lv,
        hp,
        hp_max,
        mp,
        mp_max,
    }
}

#[test]
fn one_record_blob_builds_one_entry() {
    let r = build_roster("e|Hero|cuid1|0|a|64|64|32|32|0|0|0");
    let c = r.get(0).unwrap();
    assert_eq!(c.name, "Hero");
    assert_eq!(c.lv, 10);
    assert!(r.get(1).is_none());
    assert!(!r.is_empty());
}

#[test]
fn two_record_blob_builds_two_entries() {
    let blob = "e|Hero|cuid1|0|a|64|64|32|32|0|0|0|c|Mage|cuid2|0|b|50|60|70|80|0|0|0";
    let r = build_roster(blob);
    assert_eq!(r.get(0).unwrap().name, "Hero");
    let mage = r.get(1).unwrap();
    assert_eq!(mage.name, "Mage");
    assert_eq!(mage.lv, 11);
    assert_eq!(mage.hp, 0x50);
    assert_eq!(mage.hp_max, 0x60);
    assert_eq!(mage.mp, 0x70);
    assert_eq!(mage.mp_max, 0x80);
}

#[test]
fn truncated_trailing_chunk_is_dropped() {
    let blob = "e|Hero|cuid1|0|a|64|64|32|32|0|0|0|c|Mage|cuid2|0|b";
    let r = build_roster(blob);
    assert!(r.get(0).is_some());
    assert!(r.get(1).is_none());
}

#[test]
fn empty_blob_builds_empty_roster() {
    let r = build_roster("");
    assert!(r.is_empty());
    for pos in -1..20 {
        assert!(r.get(pos).is_none());
    }
}

#[test]
fn undecodable_record_is_skipped_rest_kept() {
    let blob = "e|Hero|cuid1|0|oops|64|64|32|32|0|0|0|c|Mage|cuid2|0|b|50|60|70|80|0|0|0";
    let r = build_roster(blob);
    assert!(r.get(0).is_none());
    assert_eq!(r.get(1).unwrap().name, "Mage");
}

#[test]
fn unknown_slot_index_is_keyed_at_the_sentinel() {
    let r = build_roster("ff|Ghost|cuid1|0|1|2|3|4|5|0|0|0");
    let c = r.get(-1).unwrap();
    assert_eq!(c.name, "Ghost");
    assert_eq!(c.pos_in_grid, -1);
}

#[test]
fn later_record_wins_a_contested_position() {
    let blob = "e|First|cuid1|0|1|2|3|4|5|0|0|0|e|Second|cuid2|0|6|7|8|9|a|0|0|0";
    let r = build_roster(blob);
    let c = r.get(0).unwrap();
    assert_eq!(c.name, "Second");
    assert_eq!(c.lv, 6);
}

#[test]
fn roster_equality_is_structural() {
    let a = build_roster("e|Hero|cuid1|0|a|64|64|32|32|0|0|0");
    let b = build_roster("e|Hero|other_cuid|9|a|64|64|32|32|9|9|9");
    let c = build_roster("e|Hero|cuid1|0|a|63|64|32|32|0|0|0");
    assert!(a.roster_eq(&b));
    assert!(!a.roster_eq(&c));
    assert!(!a.roster_eq(&Roster::new()));
}

#[test]
fn encode_then_decode_round_trips() {
    let mut r = Roster::new();
    r.insert(entity(0, "Hero", 10, 100, 100, 50, 50));
    r.insert(entity(19, "Mage", 11, 80, 96, 112, 128));
    r.insert(entity(7, "", 0, 0, 0, 0, 0));
    let blob = r.encode();
    let back = build_roster(&blob);
    assert!(r.roster_eq(&back));
    assert_eq!(back.get(0).unwrap().name, "Hero");
    assert_eq!(back.get(19).unwrap().name, "Mage");
    assert_eq!(back.get(7).unwrap().name, "");
}

#[test]
fn full_roster_round_trips() {
    let mut r = Roster::new();
    for pos in 0..20 {
        r.insert(entity(
            pos,
            &format!("unit{}", pos),
            pos + 1,
            1000 + pos,
            2000 + pos,
            30 + pos,
            40 + pos,
        ));
    }
    let blob = r.encode();
    let back = build_roster(&blob);
    assert!(r.roster_eq(&back));
    for pos in 0..20 {
        let c = back.get(pos).unwrap();
        assert_eq!(c.name, format!("unit{}", pos));
        assert_eq!(c.lv, pos + 1);
        assert_eq!(c.hp, 1000 + pos);
        assert_eq!(c.hp_max, 2000 + pos);
        assert_eq!(c.mp, 30 + pos);
        assert_eq!(c.mp_max, 40 + pos);
    }
}

#[test]
fn empty_roster_encodes_to_the_empty_blob() {
    let r = Roster::new();
    let blob = r.encode();
    assert_eq!(blob, "");
    assert!(build_roster(&blob).is_empty());
}

#[test]
fn duplicate_is_an_exact_copy() {
    let r = build_roster("e|Hero|cuid1|0|a|64|64|32|32|0|0|0");
    let d = r.duplicate();
    assert!(r.roster_eq(&d));
}

#[test]
fn hp_above_hp_max_is_kept_unclamped() {
    let r = build_roster("e|Hero|cuid1|0|a|c8|64|32|32|0|0|0");
    let c = r.get(0).unwrap();
    assert_eq!(c.hp, 200);
    assert_eq!(c.hp_max, 100);
}
