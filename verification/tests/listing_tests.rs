use media_browser::listing::{sort_entries, Entry};

fn e(name: &str, is_dir: bool) -> Entry {
    Entry::new(format!("/d/{}", name), name.to_string(), is_dir)
}

fn names(v: &[Entry]) -> Vec<String> {
    v.iter().map(|x| x.name.clone()).collect()
}

#[test]
fn directories_first_then_names() {
    let v = vec![e("b.txt", false), e("zeta", true), e("a.txt", false), e("alpha", true)];
    let r = sort_entries(v);
    assert_eq!(names(&r), vec!["alpha", "zeta", "a.txt", "b.txt"]);
    assert!(r[0].is_dir && r[1].is_dir && !r[2].is_dir && !r[3].is_dir);
}

#[test]
fn names_compare_by_character_value() {
    let v = vec![e("apple", false), e("Banana", false), e("_x", false), e("10", false), e("9", false)];
    let r = sort_entries(v);
    assert_eq!(names(&r), vec!["10", "9", "Banana", "_x", "apple"]);
}

#[test]
fn prefix_sorts_first_and_nothing_is_lost() {
    let v = vec![e("abc", false), e("ab", false), e("abd", false), e("a", false), e("ab", true)];
    let r = sort_entries(v);
    assert_eq!(names(&r), vec!["ab", "a", "ab", "abc", "abd"]);
    assert!(r[0].is_dir);
    assert_eq!(r.len(), 5);
}

#[test]
fn empty_and_single_listing() {
    assert!(sort_entries(Vec::new()).is_empty());
    let r = sort_entries(vec![e("only", false)]);
    assert_eq!(names(&r), vec!["only"]);
}

#[test]
fn large_listing_is_sorted() {
    let mut v = Vec::new();
    for i in 0..500u32 {
        let k = (i * 7919) % 500;
        v.push(e(&format!("f{:04}", k), k % 3 == 0));
    }
    let r = sort_entries(v);
    assert_eq!(r.len(), 500);
    for w in r.windows(2) {
        assert!(!( !w[0].is_dir && w[1].is_dir));
        if w[0].is_dir == w[1].is_dir {
            assert!(w[0].name <= w[1].name);
        }
    }
}

#[test]
fn equal_names_keep_listing_order() {
    let v = vec![
        Entry::new("/p/2".to_string(), "same".to_string(), false),
        Entry::new("/p/0".to_string(), "a".to_string(), false),
        Entry::new("/p/1".to_string(), "same".to_string(), false),
        Entry::new("/p/3".to_string(), "same".to_string(), false),
    ];
    let r = sort_entries(v);
    let paths: Vec<&str> = r.iter().map(|x| x.path.as_str()).collect();
    assert_eq!(paths, vec!["/p/0", "/p/2", "/p/1", "/p/3"]);
}
