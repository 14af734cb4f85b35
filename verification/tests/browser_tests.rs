use media_browser::browser::{AppTheme, BrowserState, Shortcuts, TreeAction, TreeEffect, ViewMode};
use media_browser::file_ops::{ClipboardAction, TransferKind};
use media_browser::listing::Entry;

fn e(dir: &str, name: &str, is_dir: bool) -> Entry {
    Entry::new(format!("{}/{}", dir, name), name.to_string(), is_dir)
}

fn listing() -> Vec<Entry> {
    vec![e("/d", "b.txt", false), e("/d", "sub", true), e("/d", "a.txt", false), e("/d", "c.txt", false)]
}

fn state() -> BrowserState {
    BrowserState::new("/d".to_string(), listing())
}

fn sorted_selection(s: &BrowserState) -> Vec<String> {
    let mut v = s.selected_paths();
    v.sort();
    v
}

fn keys() -> Shortcuts {
    Shortcuts { copy: false, cut: false, paste: false, delete: false, select_all: false }
}

#[test]
fn start_up_state() {
    let s = state();
    assert_eq!(s.current_dir(), "/d");
    let names: Vec<&str> = s.entries().iter().map(|x| x.name.as_str()).collect();
    assert_eq!(names, vec!["sub", "a.txt", "b.txt", "c.txt"]);
    assert_eq!(s.view_mode(), ViewMode::Grid);
    assert_eq!(s.theme(), AppTheme::Light);
    assert!(s.use_os_icons());
    assert!(!s.show_preview());
    assert_eq!(s.path_input(), "/d");
    assert_eq!(s.selected_count(), 0);
    assert!(!s.can_go_back());
    assert!(!s.can_go_forward());
    assert!(s.clipboard().is_empty());
    assert_eq!(s.last_navigated(), None);
    assert_eq!(s.renaming(), None);
}

#[test]
fn plain_ctrl_and_shift_clicks() {
    let mut s = state();
    s.click(1, false, false);
    assert_eq!(sorted_selection(&s), vec!["/d/a.txt"]);
    s.click(3, false, true);
    assert_eq!(sorted_selection(&s), vec!["/d/a.txt", "/d/b.txt", "/d/c.txt"]);
    s.click(2, true, false);
    assert_eq!(sorted_selection(&s), vec!["/d/a.txt", "/d/c.txt"]);
    s.click(2, true, false);
    assert_eq!(sorted_selection(&s), vec!["/d/a.txt", "/d/b.txt", "/d/c.txt"]);
    // the anchor moved to 2 with the ctrl-clicks: shift to 0 adds 0..=2
    s.click(0, false, true);
    assert_eq!(sorted_selection(&s), vec!["/d/a.txt", "/d/b.txt", "/d/c.txt", "/d/sub"]);
    s.click(0, false, false);
    assert_eq!(sorted_selection(&s), vec!["/d/sub"]);
    assert_eq!(s.single_selected(), Some("/d/sub".to_string()));
}

#[test]
fn shift_click_without_anchor_does_nothing() {
    let mut s = state();
    s.click(2, false, true);
    assert_eq!(s.selected_count(), 0);
}

#[test]
fn select_all_and_context_select() {
    let mut s = state();
    s.select_all();
    assert_eq!(s.selected_count(), 4);
    s.context_select(1);
    assert_eq!(s.selected_count(), 4);
    s.click(0, false, false);
    s.context_select(3);
    assert_eq!(sorted_selection(&s), vec!["/d/c.txt"]);
    assert!(s.is_highlighted(&"/d/c.txt".to_string()));
    assert!(!s.is_highlighted(&"/d/sub".to_string()));
}

#[test]
fn shortcuts_copy_cut_delete_select_all() {
    let mut s = state();
    let mut k = keys();
    k.copy = true;
    let fx = s.handle_shortcuts(false, &k);
    assert!(!fx.paste && fx.delete.is_none() && !fx.refresh);
    assert!(s.clipboard().is_empty());

    s.click(1, false, false);
    let fx = s.handle_shortcuts(false, &k);
    assert!(!fx.refresh);
    assert_eq!(s.clipboard(), vec!["/d/a.txt".to_string()]);

    let mut k2 = keys();
    k2.cut = true;
    k2.copy = true;
    s.handle_shortcuts(false, &k2);
    let mut m = s.begin_paste().ok().unwrap();
    assert_eq!(s.transfer_kind(false), TransferKind::Move);
    assert_eq!(m.next_item().unwrap().source, "/d/a.txt");
    m.succeed();
    assert!(s.finish_paste(m).is_ok());
    assert!(s.clipboard().is_empty());

    let mut k3 = keys();
    k3.delete = true;
    k3.paste = true;
    let fx = s.handle_shortcuts(false, &k3);
    assert!(fx.paste);
    assert!(fx.refresh);
    assert_eq!(fx.delete, Some(vec!["/d/a.txt".to_string()]));
    assert_eq!(s.selected_count(), 0);

    let mut k4 = keys();
    k4.select_all = true;
    let fx = s.handle_shortcuts(false, &k4);
    assert!(!fx.refresh);
    assert_eq!(s.selected_count(), 4);
}

#[test]
fn shortcuts_are_ignored_while_typing_or_renaming() {
    let mut s = state();
    s.click(1, false, false);
    let mut k = keys();
    k.delete = true;
    k.copy = true;
    let fx = s.handle_shortcuts(true, &k);
    assert!(fx.delete.is_none() && !fx.refresh);
    assert_eq!(s.selected_count(), 1);
    s.start_rename("/d/a.txt".to_string(), "a.txt".to_string());
    let fx = s.handle_shortcuts(false, &k);
    assert!(fx.delete.is_none());
    assert!(s.clipboard().is_empty());
}

#[test]
fn toolbar_copy_and_cut_need_a_selection() {
    let mut s = state();
    assert!(!s.copy_selection());
    assert!(!s.cut_selection());
    s.click(2, false, false);
    assert!(s.copy_selection());
    assert_eq!(s.transfer_kind(true), TransferKind::CopyDir);
    assert!(s.cut_selection());
    assert_eq!(s.clipboard(), vec!["/d/b.txt".to_string()]);
}

#[test]
fn paste_with_empty_clipboard() {
    let s = state();
    assert_eq!(s.begin_paste().err(), Some("Clipboard is empty".to_string()));
}

#[test]
fn tree_actions() {
    let mut s = state();
    assert_eq!(s.apply_tree_action(TreeAction::Click("/x".to_string())), TreeEffect::Navigate("/x".to_string()));
    assert_eq!(s.apply_tree_action(TreeAction::Copy("/x".to_string())), TreeEffect::Nothing);
    assert_eq!(s.clipboard(), vec!["/x".to_string()]);
    assert_eq!(s.transfer_kind(false), TransferKind::CopyFile);
    assert_eq!(s.apply_tree_action(TreeAction::Cut("/y".to_string())), TreeEffect::Nothing);
    assert_eq!(s.transfer_kind(false), TransferKind::Move);
    assert_eq!(s.apply_tree_action(TreeAction::Paste("/z".to_string())), TreeEffect::Paste("/z".to_string()));
    assert_eq!(s.apply_tree_action(TreeAction::Delete("/z".to_string())), TreeEffect::Delete("/z".to_string()));
    assert_eq!(
        s.apply_tree_action(TreeAction::NewFolder("/z".to_string())),
        TreeEffect::NewFolder("/z".to_string())
    );
    assert_eq!(
        s.apply_tree_action(TreeAction::StartRename("C:\\".to_string(), "Local Disk (C:)".to_string())),
        TreeEffect::Nothing
    );
    assert_eq!(s.renaming(), Some("C:\\".to_string()));
    assert_eq!(s.rename_buffer(), "Local Disk (C:)");
}

#[test]
fn rename_dialog() {
    let mut s = state();
    s.start_rename("/d/a.txt".to_string(), "a.txt".to_string());
    s.set_rename_buffer("b2.txt".to_string());
    assert_eq!(s.commit_rename(), Some(("/d/a.txt".to_string(), "b2.txt".to_string())));
    assert_eq!(s.renaming(), None);
    assert_eq!(s.commit_rename(), None);
    s.start_rename("/d/a.txt".to_string(), "a.txt".to_string());
    s.set_rename_buffer(String::new());
    assert_eq!(s.commit_rename(), None);
    s.start_rename("/d/a.txt".to_string(), "a.txt".to_string());
    s.cancel_rename();
    assert_eq!(s.renaming(), None);
}

#[test]
fn drag_selection() {
    let mut s = state();
    s.click(0, false, false);
    s.drag_press(true);
    assert!(s.is_dragging());
    assert_eq!(s.selected_count(), 1);
    s.drag_update(&vec!["/d/a.txt".to_string(), "/d/b.txt".to_string()]);
    assert!(s.is_highlighted(&"/d/b.txt".to_string()));
    assert_eq!(s.selected_count(), 1);
    s.drag_update(&vec!["/d/b.txt".to_string()]);
    assert!(!s.is_highlighted(&"/d/a.txt".to_string()));
    s.drag_release();
    assert!(!s.is_dragging());
    assert_eq!(sorted_selection(&s), vec!["/d/b.txt", "/d/sub"]);

    s.drag_press(false);
    assert_eq!(s.selected_count(), 0);
    s.drag_release();
    assert_eq!(s.selected_count(), 0);
}

#[test]
fn drag_update_without_drag_changes_nothing() {
    let mut s = state();
    s.drag_update(&vec!["/d/a.txt".to_string()]);
    assert!(!s.is_highlighted(&"/d/a.txt".to_string()));
    s.drag_release();
    assert_eq!(s.selected_count(), 0);
}

#[test]
fn navigation_and_history() {
    let mut s = state();
    s.click(1, false, false);
    s.navigate_to("/d/sub".to_string(), vec![e("/d/sub", "x.png", false)]);
    assert_eq!(s.current_dir(), "/d/sub");
    assert_eq!(s.path_input(), "/d/sub");
    assert_eq!(s.last_navigated(), Some("/d/sub".to_string()));
    assert_eq!(s.selected_count(), 0);
    assert_eq!(s.entries().len(), 1);
    assert!(s.can_go_back());
    assert_eq!(s.back_target(), Some("/d".to_string()));
    s.clear_last_navigated();
    assert_eq!(s.last_navigated(), None);
    s.go_back(listing());
    assert_eq!(s.current_dir(), "/d");
    assert_eq!(s.forward_target(), Some("/d/sub".to_string()));
    s.go_forward(vec![]);
    assert_eq!(s.current_dir(), "/d/sub");
    assert_eq!(s.forward_target(), None);
    s.navigate_to("/d/sub".to_string(), vec![]);
    assert_eq!(s.back_target(), Some("/d".to_string()));
}

#[test]
fn refresh_keeps_directory_and_clears_selection() {
    let mut s = state();
    s.select_all();
    s.refresh(vec![e("/d", "new.txt", false)]);
    assert_eq!(s.current_dir(), "/d");
    assert_eq!(s.selected_count(), 0);
    assert_eq!(s.entries().len(), 1);
}

#[test]
fn settings() {
    let mut s = state();
    s.set_view_mode(ViewMode::List);
    assert_eq!(s.view_mode(), ViewMode::List);
    s.set_theme(AppTheme::Dark);
    assert_eq!(s.theme(), AppTheme::Dark);
    s.toggle_preview();
    assert!(s.show_preview());
    s.toggle_preview();
    assert!(!s.show_preview());
    assert!(s.set_use_os_icons(false));
    assert!(!s.set_use_os_icons(false));
    assert!(!s.use_os_icons());
    s.set_path_input("/tmp".to_string());
    assert_eq!(s.path_input(), "/tmp");
}

#[test]
fn up_target_is_parent() {
    let s = state();
    assert_eq!(s.up_target(), Some("/".to_string()));
    let root = BrowserState::new("/".to_string(), Vec::new());
    assert_eq!(root.up_target(), None);
}

#[test]
fn rename_of_single_selection() {
    let mut s = state();
    assert!(!s.start_rename_selected());
    assert_eq!(s.renaming(), None);
    s.click(2, false, false);
    assert!(s.start_rename_selected());
    assert_eq!(s.renaming(), Some("/d/b.txt".to_string()));
    assert_eq!(s.rename_buffer(), "b.txt");
    s.cancel_rename();
    s.select_all();
    assert!(!s.start_rename_selected());
}

#[test]
fn navigating_to_the_same_path_written_otherwise_keeps_history() {
    let mut s = state();
    s.navigate_to("/d/".to_string(), listing());
    assert!(!s.can_go_back());
    assert_eq!(s.current_dir(), "/d/");
    s.navigate_to("/d/sub".to_string(), Vec::new());
    assert_eq!(s.back_target(), Some("/d".to_string()));
}

#[test]
fn navigating_twice_to_one_directory_is_one_navigation() {
    let mut s = state();
    s.navigate_to("/d/sub".to_string(), vec![e("/d/sub", "x.png", false)]);
    s.navigate_to("/d/sub".to_string(), vec![e("/d/sub", "y.png", false)]);
    assert_eq!(s.back_target(), Some("/d".to_string()));
    assert!(!s.can_go_forward());
    s.go_back(listing());
    assert_eq!(s.current_dir(), "/d");
    assert!(!s.can_go_back());
    assert_eq!(s.forward_target(), Some("/d/sub".to_string()));
}

#[test]
fn listing_order_is_stable_for_equal_names() {
    let s = BrowserState::new(
        "/d".to_string(),
        vec![e("/d", "same", false), e("/e", "same", false), e("/d", "a", true)],
    );
    let paths: Vec<String> = s.entries().iter().map(|x| x.path.clone()).collect();
    assert_eq!(paths, vec!["/d/a".to_string(), "/d/same".to_string(), "/e/same".to_string()]);
}

#[test]
fn highlighting_goes_by_path_not_by_text() {
    let mut s = state();
    let i = s.entries().iter().position(|x| x.path == "/d/a.txt").unwrap();
    s.click(i, false, false);
    assert!(s.is_highlighted(&"/d/a.txt".to_string()));
    assert!(s.is_highlighted(&"/d//a.txt".to_string()));
    assert!(!s.is_highlighted(&"/d/b.txt".to_string()));
    assert_eq!(s.single_selected(), Some("/d/a.txt".to_string()));
}
