use media_browser::listing::Entry;
use media_browser::tree::{invalidate, opens_toward_exec, FileTreeItem};

fn e(name: &str, is_dir: bool) -> Entry {
    Entry::new(format!("/root/{}", name), name.to_string(), is_dir)
}

#[test]
fn new_item_is_not_loaded() {
    let it = FileTreeItem::new("/root".to_string(), "root".to_string());
    assert_eq!(it.path, "/root");
    assert_eq!(it.name, "root");
    assert!(it.children.is_none());
}

#[test]
fn equal_lower_case_names_keep_listing_order() {
    let mut it = FileTreeItem::new("/root".to_string(), "root".to_string());
    it.load_children(vec![e("b", true), e("ABC", true), e("abc", true), e("Abc", true), e("a", true)]);
    let kids = it.children.as_ref().unwrap();
    let names: Vec<&str> = kids.iter().map(|k| k.name.as_str()).collect();
    assert_eq!(names, vec!["a", "ABC", "abc", "Abc", "b"]);
}

#[test]
fn children_are_folders_in_case_insensitive_order() {
    let mut it = FileTreeItem::new("/root".to_string(), "root".to_string());
    it.load_children(vec![e("cherry", true), e("readme.txt", false), e("Banana", true), e("apple", true)]);
    let kids = it.children.as_ref().unwrap();
    let names: Vec<&str> = kids.iter().map(|k| k.name.as_str()).collect();
    assert_eq!(names, vec!["apple", "Banana", "cherry"]);
    assert!(kids.iter().all(|k| k.children.is_none()));
    assert_eq!(kids[1].path, "/root/Banana");
}

#[test]
fn unreadable_folder_has_no_children() {
    let mut it = FileTreeItem::new("/root".to_string(), "root".to_string());
    it.load_children(Vec::new());
    assert_eq!(it.children.as_ref().map(|c| c.len()), Some(0));
}

#[test]
fn invalidate_forgets_children_of_drives() {
    let mut a = FileTreeItem::new("C:\\".to_string(), "Local Disk (C:)".to_string());
    a.load_children(vec![e("x", true)]);
    let b = FileTreeItem::new("D:\\".to_string(), "Data (D:)".to_string());
    let mut drives = vec![a, b];
    invalidate(&mut drives);
    assert_eq!(drives.len(), 2);
    assert!(drives[0].children.is_none());
    assert_eq!(drives[0].name, "Local Disk (C:)");
    assert_eq!(drives[1].path, "D:\\");
}

#[test]
fn opens_toward_deeper_navigation_only() {
    let item = "/home".to_string();
    assert!(opens_toward_exec(&Some("/home/me".to_string()), &item, true));
    assert!(!opens_toward_exec(&Some("/home".to_string()), &item, true));
    assert!(!opens_toward_exec(&Some("/home/".to_string()), &item, true));
    assert!(!opens_toward_exec(&Some("/var".to_string()), &item, false));
    assert!(!opens_toward_exec(&None, &item, true));
}

#[test]
fn opens_toward_uses_path_components() {
    let item = FileTreeItem::new("/home".to_string(), "home".to_string());
    assert!(item.opens_toward_nav(&Some("/home/me/docs".to_string())));
    assert!(!item.opens_toward_nav(&Some("/homework".to_string())));
    assert!(!item.opens_toward_nav(&Some("/home".to_string())));
    assert!(!item.opens_toward_nav(&Some("/home/".to_string())));
    assert!(!item.opens_toward_nav(&None));
    let root = FileTreeItem::new("/".to_string(), "root (/)".to_string());
    assert!(root.opens_toward_nav(&Some("/home".to_string())));
}

#[test]
fn tree_item_is_at_its_folder_however_written() {
    let item = FileTreeItem::new("/home/me".to_string(), "me".to_string());
    assert!(item.is_at(&"/home/me".to_string()));
    assert!(item.is_at(&"/home/me/".to_string()));
    assert!(!item.is_at(&"/home".to_string()));
}
