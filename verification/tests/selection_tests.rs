use media_browser::selection::Selection;

fn s(x: &str) -> String {
    x.to_string()
}

#[test]
fn insert_contains_remove() {
    let mut sel = Selection::new();
    assert!(sel.is_empty());
    sel.insert(s("/a"));
    sel.insert(s("/b"));
    sel.insert(s("/a"));
    assert_eq!(sel.len(), 2);
    assert!(sel.contains(&s("/a")));
    sel.remove(&s("/a"));
    assert!(!sel.contains(&s("/a")));
    assert_eq!(sel.paths(), vec![s("/b")]);
    sel.remove(&s("/zzz"));
    assert_eq!(sel.len(), 1);
}

#[test]
fn toggle_twice_restores() {
    let mut sel = Selection::new();
    sel.insert(s("/a"));
    sel.toggle(s("/b"));
    assert!(sel.contains(&s("/b")));
    sel.toggle(s("/b"));
    assert!(!sel.contains(&s("/b")));
    assert_eq!(sel.paths(), vec![s("/a")]);
}

#[test]
fn insert_all_and_clear() {
    let mut sel = Selection::new();
    sel.insert(s("/x"));
    sel.insert_all(&vec![s("/a"), s("/x"), s("/b"), s("/a")]);
    assert_eq!(sel.paths(), vec![s("/x"), s("/a"), s("/b")]);
    sel.clear();
    assert!(sel.is_empty());
    assert!(sel.paths().is_empty());
}

#[test]
fn one_path_written_two_ways_is_one_selection() {
    let mut sel = Selection::new();
    sel.insert(s("/a/b"));
    assert!(sel.contains(&s("/a/b/")));
    assert!(sel.contains(&s("/a/./b")));
    sel.insert(s("/a//b"));
    assert_eq!(sel.len(), 1);
    assert_eq!(sel.paths(), vec![s("/a/b")]);
    sel.toggle(s("/a/b/"));
    assert!(sel.is_empty());
    sel.insert_all(&vec![s("/x/"), s("/x"), s("/y")]);
    assert_eq!(sel.paths(), vec![s("/x/"), s("/y")]);
    sel.remove(&s("/x"));
    assert_eq!(sel.paths(), vec![s("/y")]);
}
