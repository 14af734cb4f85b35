use media_browser::file_ops::{
    folder_candidate_name, new_folder_name, paste_candidate_name, rename_check, ClipboardAction,
    FileManager, TransferKind,
};

fn paths(v: &[&str]) -> Vec<String> {
    v.iter().map(|s| s.to_string()).collect()
}

#[test]
fn default_manager_is_empty() {
    let m = FileManager::default();
    assert!(m.clipboard.is_empty());
    assert_eq!(m.action, ClipboardAction::NoAction);
}

#[test]
fn copy_and_cut_fill_clipboard() {
    let mut m = FileManager::new();
    m.copy_to_clipboard(paths(&["/a", "/b"]));
    assert_eq!(m.clipboard, paths(&["/a", "/b"]));
    assert_eq!(m.action, ClipboardAction::Copy);
    m.cut_to_clipboard(paths(&["/c"]));
    assert_eq!(m.clipboard, paths(&["/c"]));
    assert_eq!(m.action, ClipboardAction::Cut);
}

#[test]
fn paste_with_empty_clipboard_is_refused() {
    let m = FileManager::new();
    match m.begin_paste() {
        Err(e) => assert_eq!(e, "Clipboard is empty"),
        Ok(_) => panic!("expected an error"),
    }
}

#[test]
fn cut_fully_moved_empties_clipboard() {
    let mut m = FileManager::new();
    m.cut_to_clipboard(paths(&["/x/a.txt", "/x/b.txt"]));
    let mut s = m.begin_paste().ok().unwrap();
    assert_eq!(s.sources, paths(&["/x/a.txt", "/x/b.txt"]));
    let it = s.next_item().unwrap();
    assert_eq!(it.source, "/x/a.txt");
    assert_eq!((it.file_name.as_str(), it.stem.as_str(), it.ext.as_str()), ("a.txt", "a", "txt"));
    s.succeed();
    assert_eq!(s.next_item().unwrap().source, "/x/b.txt");
    s.succeed();
    assert!(s.next_item().is_none());
    let r = m.finish_paste(s);
    assert_eq!(r, Ok("Paste successful".to_string()));
    assert!(m.clipboard.is_empty());
    assert_eq!(m.action, ClipboardAction::NoAction);
}

#[test]
fn cut_with_failure_keeps_clipboard_and_reports() {
    let mut m = FileManager::new();
    m.cut_to_clipboard(paths(&["/x/a.txt", "/x/b.txt"]));
    let mut s = m.begin_paste().ok().unwrap();
    s.next_item().unwrap();
    s.succeed();
    s.next_item().unwrap();
    s.fail("access denied");
    let r = m.finish_paste(s);
    assert_eq!(r, Err("Failed \"/x/b.txt\": access denied".to_string()));
    assert_eq!(m.clipboard, paths(&["/x/a.txt", "/x/b.txt"]));
    assert_eq!(m.action, ClipboardAction::Cut);
}

#[test]
fn several_failures_are_joined_by_line_breaks() {
    let mut m = FileManager::new();
    m.copy_to_clipboard(paths(&["/a", "/b", "/c"]));
    let mut s = m.begin_paste().ok().unwrap();
    assert_eq!(s.next_item().unwrap().source, "/a");
    s.fail("e1");
    assert_eq!(s.next_item().unwrap().source, "/b");
    s.succeed();
    assert_eq!(s.next_item().unwrap().source, "/c");
    s.fail("e2");
    assert!(s.next_item().is_none());
    assert_eq!(s.handled, 3);
    assert_eq!(s.success_count, 1);
    let r = m.finish_paste(s);
    assert_eq!(r, Err("Failed \"/a\": e1\nFailed \"/c\": e2".to_string()));
}

#[test]
fn copy_paste_keeps_clipboard() {
    let mut m = FileManager::new();
    m.copy_to_clipboard(paths(&["/a"]));
    let mut s = m.begin_paste().ok().unwrap();
    s.next_item().unwrap();
    s.succeed();
    assert!(m.finish_paste(s).is_ok());
    assert_eq!(m.clipboard, paths(&["/a"]));
    assert_eq!(m.action, ClipboardAction::Copy);
    // the same entry can be pasted again
    assert!(m.begin_paste().is_ok());
}

#[test]
fn entry_without_file_name_is_passed_over() {
    let mut m = FileManager::new();
    m.cut_to_clipboard(paths(&["/", "/x/a", "..", "/x/notes"]));
    let mut s = m.begin_paste().ok().unwrap();
    let it = s.next_item().unwrap();
    assert_eq!(it.source, "/x/a");
    assert_eq!(s.handled, 1);
    assert_eq!((it.stem.as_str(), it.ext.as_str()), ("a", ""));
    s.succeed();
    let it = s.next_item().unwrap();
    assert_eq!(it.source, "/x/notes");
    assert_eq!(s.handled, 3);
    s.succeed();
    assert!(s.next_item().is_none());
    assert_eq!(s.handled, 4);
    assert_eq!(m.finish_paste(s), Ok("Paste successful".to_string()));
    // two of four entries were moved: the cut stays on the clipboard
    assert_eq!(m.clipboard.len(), 4);
}

#[test]
fn transfer_kinds() {
    let mut m = FileManager::new();
    m.copy_to_clipboard(paths(&["/a"]));
    assert_eq!(m.transfer_kind(true), TransferKind::CopyDir);
    assert_eq!(m.transfer_kind(false), TransferKind::CopyFile);
    m.cut_to_clipboard(paths(&["/a"]));
    assert_eq!(m.transfer_kind(true), TransferKind::Move);
    assert_eq!(m.transfer_kind(false), TransferKind::Move);
}

#[test]
fn paste_candidates() {
    assert_eq!(paste_candidate_name("photo.jpg", "photo", "jpg", 0), "photo.jpg");
    assert_eq!(paste_candidate_name("photo.jpg", "photo", "jpg", 1), "photo (1).jpg");
    assert_eq!(paste_candidate_name("notes", "notes", "", 2), "notes (2)");
    assert_eq!(paste_candidate_name("a.tar.gz", "a.tar", "gz", 12345), "a.tar (12345).gz");
    assert_eq!(paste_candidate_name("x", "x", "", 18446744073709551615), "x (18446744073709551615)");
}

#[test]
fn paste_candidates_never_repeat() {
    let mut seen = std::collections::HashSet::new();
    for k in 0..200u64 {
        assert!(seen.insert(paste_candidate_name("v.mp4", "v", "mp4", k)));
    }
    let mut seen2 = std::collections::HashSet::new();
    for k in 0..200u64 {
        assert!(seen2.insert(paste_candidate_name("a.", "a", "", k)));
    }
}

#[test]
fn folder_candidates() {
    assert_eq!(folder_candidate_name("New Folder", 0), "New Folder");
    assert_eq!(folder_candidate_name("New Folder", 1), "New Folder (1)");
    assert_eq!(folder_candidate_name("New Folder", 10), "New Folder (10)");
    let mut seen = std::collections::HashSet::new();
    for k in 0..200u64 {
        assert!(seen.insert(folder_candidate_name("New Folder", k)));
    }
}

#[test]
fn new_folder_base_name() {
    assert_eq!(new_folder_name(), "New Folder");
}

#[test]
fn rename_onto_existing_name_is_refused() {
    assert_eq!(rename_check(true), Err("Name already exists".to_string()));
    assert_eq!(rename_check(false), Ok(()));
}
