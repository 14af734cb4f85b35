use media_browser::history::History;

#[test]
fn new_history_holds_start() {
    let h = History::new("/home".to_string());
    assert_eq!(h.current(), "/home");
    assert!(!h.can_go_back());
    assert!(!h.can_go_forward());
}

#[test]
fn visit_back_forward() {
    let mut h = History::new("/a".to_string());
    h.visit("/b".to_string());
    h.visit("/c".to_string());
    assert_eq!(h.current(), "/c");
    assert!(h.can_go_back());
    assert_eq!(h.peek_back(), "/b");
    assert_eq!(h.back(), "/b");
    assert_eq!(h.back(), "/a");
    assert!(!h.can_go_back());
    assert!(h.can_go_forward());
    assert_eq!(h.peek_forward(), "/b");
    assert_eq!(h.forward(), "/b");
    assert_eq!(h.forward(), "/c");
    assert!(!h.can_go_forward());
}

#[test]
fn back_then_forward_returns() {
    let mut h = History::new("/a".to_string());
    h.visit("/b".to_string());
    let before = h.current();
    h.back();
    assert_eq!(h.forward(), before);
}

#[test]
fn visiting_current_changes_nothing() {
    let mut h = History::new("/a".to_string());
    h.visit("/b".to_string());
    h.back();
    h.visit("/a".to_string());
    assert!(h.can_go_forward());
    assert_eq!(h.peek_forward(), "/b");
}

#[test]
fn new_visit_drops_forward_part() {
    let mut h = History::new("/a".to_string());
    h.visit("/b".to_string());
    h.visit("/c".to_string());
    h.back();
    h.back();
    h.visit("/d".to_string());
    assert_eq!(h.current(), "/d");
    assert!(!h.can_go_forward());
    assert_eq!(h.back(), "/a");
    assert!(!h.can_go_back());
}

#[test]
fn visit_compares_paths_by_components() {
    let mut h = History::new("/a/b".to_string());
    h.visit("/a/b/".to_string());
    h.visit("/a//b".to_string());
    assert!(!h.can_go_back());
    assert_eq!(h.current(), "/a/b");
    h.visit("/a/bc".to_string());
    assert!(h.can_go_back());
}
