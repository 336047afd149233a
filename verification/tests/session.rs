use battle_monitor::session::Session;

const BLOB: &str = "e|Hero|cuid1|0|a|64|64|32|32|0|0|0";

fn started_session() -> Session {
    let mut s = Session::new();
    s.apply_start(42, 0x1234, "utf-8");
    s
}

#[test]
fn new_session_is_idle_with_neutral_defaults() {
    let s = Session::new();
    assert!(!s.started);
    assert_eq!(s.hwnd, 0);
    assert_eq!(s.handle, 0);
    assert_eq!(s.battle_info_addr, 0);
    assert_eq!(s.encoding, "");
    assert!(s.characters.is_empty());
}

#[test]
fn apply_start_stores_the_configuration() {
    let s = started_session();
    assert!(s.started);
    assert_eq!(s.handle, 42);
    assert_eq!(s.battle_info_addr, 0x1234);
    assert_eq!(s.encoding, "utf-8");
}

#[test]
fn set_hwnd_changes_only_the_window_handle() {
    let mut s = started_session();
    s.set_hwnd(77);
    assert_eq!(s.hwnd, 77);
    assert!(s.started);
    assert_eq!(s.handle, 42);
}

#[test]
fn idle_session_cycle_is_a_noop() {
    let mut s = Session::new();
    assert!(!s.cycle(BLOB));
    assert!(s.characters.is_empty());
}

#[test]
fn same_blob_twice_emits_once() {
    let mut s = started_session();
    assert!(s.cycle(BLOB));
    assert!(!s.cycle(BLOB));
    assert!(!s.cycle(BLOB));
    assert_eq!(s.characters.get(0).unwrap().name, "Hero");
}

#[test]
fn changed_blob_emits_again() {
    let mut s = started_session();
    assert!(s.cycle(BLOB));
    assert!(s.cycle("c|Mage|cuid2|0|b|50|60|70|80|0|0|0"));
    assert!(s.characters.get(0).is_none());
    assert_eq!(s.characters.get(1).unwrap().name, "Mage");
}

#[test]
fn empty_blob_after_battle_emits_one_empty_event() {
    let mut s = started_session();
    assert!(s.cycle(BLOB));
    assert!(s.cycle(""));
    assert!(s.characters.is_empty());
    assert!(!s.cycle(""));
    assert!(!s.cycle(""));
}

#[test]
fn empty_blob_while_not_in_battle_emits_nothing() {
    let mut s = started_session();
    assert!(!s.cycle(""));
    assert!(s.characters.is_empty());
}

#[test]
fn stop_clears_and_reports_whether_an_event_is_owed() {
    let mut s = started_session();
    s.cycle(BLOB);
    assert!(s.stop());
    assert!(!s.started);
    assert!(s.characters.is_empty());
    assert_eq!(s.handle, 42);
}

#[test]
fn stopping_twice_emits_at_most_once() {
    let mut s = started_session();
    s.cycle(BLOB);
    assert!(s.stop());
    assert!(!s.stop());
    assert!(!s.stop());
}

#[test]
fn stop_while_idle_owes_no_empty_event() {
    let mut s = Session::new();
    assert!(!s.stop());
}

#[test]
fn restarting_after_stop_observes_the_battle_again() {
    let mut s = started_session();
    assert!(s.cycle(BLOB));
    s.stop();
    assert!(!s.cycle(BLOB));
    s.apply_start(43, 0x5678, "utf-8");
    assert!(s.cycle(BLOB));
    assert_eq!(s.characters.get(0).unwrap().name, "Hero");
}
