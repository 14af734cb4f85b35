//! The state of the browser window and every decision it takes on a user
//! action. The window itself, the file system and the thumbnails live
//! outside; they hand this state listings and flags, and carry out the
//! transfers it asks for.
use vstd::prelude::*;
use crate::file_ops::{ClipboardAction, FileManager, PasteSession, TransferKind, paste_clears, transfer_for};
use crate::history::{History, HistoryView, lemma_visit_twice};
use crate::listing::{Entry, sort_entries};
use crate::paths::{file_name_text, parent_of, path_key_of, path_parent, same_path, shown_file_name};
use crate::selection::{Selection, keys_of};
use crate::sort::{key_run, sorted};
use crate::text::{joined, views};

verus! {

#[derive(Clone, Copy, PartialEq, Eq, Structural, Debug)]
pub enum ViewMode {
    List,
    Grid,
}

#[derive(Clone, Copy, PartialEq, Eq, Structural, Debug)]
pub enum AppTheme {
    Light,
    Dark,
}

/// The abstract browser state.
pub ghost struct BrowserView {
    pub current_dir: Seq<char>,
    pub entries: Seq<Entry>,
    pub clipboard: Seq<Seq<char>>,
    pub action: ClipboardAction,
    pub view_mode: ViewMode,
    pub selected: Set<Seq<char>>,
    pub last_clicked: Option<int>,
    pub dragging: bool,
    pub drag_selected: Set<Seq<char>>,
    pub renaming: Option<Seq<char>>,
    pub rename_buffer: Seq<char>,
    pub show_preview: bool,
    pub path_input: Seq<char>,
    pub history: HistoryView,
    pub last_navigated: Option<Seq<char>>,
    pub theme: AppTheme,
    pub use_os_icons: bool,
}

/// The keys of the paths of a listing (`path_key_of`), in order.
pub open spec fn entry_keys(entries: Seq<Entry>) -> Seq<Seq<char>> {
    entries.map_values(|e: Entry| path_key_of(e.path@))
}

pub open spec fn opt_view(o: Option<String>) -> Option<Seq<char>> {
    match o {
        Some(s) => Some(s@),
        None => None,
    }
}

impl BrowserView {
    pub open spec fn wf(self) -> bool {
        &&& self.history.wf()
        &&& self.last_clicked matches Some(i) ==> 0 <= i < self.entries.len()
        &&& self.clipboard.len() > 0 ==> self.action != ClipboardAction::NoAction
        &&& self.selected.finite()
        &&& self.drag_selected.finite()
        &&& self.shows_history_current()
        &&& !self.drag_selected.is_empty() ==> self.dragging
    }

    /// The directory shown is the current one of the history (the same
    /// text, or the same path).
    pub open spec fn shows_history_current(self) -> bool {
        self.current_dir == self.history.current() || same_path(self.history.current(), self.current_dir)
    }

    /// The directory `path` shown with `entries`: nothing selected, no drag,
    /// the address bar showing `path`.
    pub open spec fn load(self, path: Seq<char>, entries: Seq<Entry>) -> BrowserView {
        BrowserView {
            current_dir: path,
            entries: entries,
            selected: Set::empty(),
            last_clicked: None,
            dragging: false,
            drag_selected: Set::empty(),
            path_input: path,
            ..self
        }
    }

    /// A navigation to `path`, shown with `entries`.
    pub open spec fn navigate(self, path: Seq<char>, entries: Seq<Entry>) -> BrowserView {
        BrowserView { history: self.history.visit(path), last_navigated: Some(path), ..self }.load(path, entries)
    }

    /// A click on entry `index`: with Ctrl it toggles the entry and becomes
    /// the anchor; with Shift it adds every entry between the anchor and
    /// `index` (nothing without an anchor); a plain click selects only the
    /// entry and makes it the anchor.
    pub open spec fn click(self, index: int, ctrl: bool, shift: bool) -> BrowserView {
        let p = path_key_of(self.entries[index].path@);
        if ctrl {
            BrowserView {
                selected: if self.selected.contains(p) { self.selected.remove(p) } else { self.selected.insert(p) },
                last_clicked: Some(index),
                ..self
            }
        } else if shift {
            match self.last_clicked {
                Some(last) => {
                    let lo = if last < index { last } else { index };
                    let hi = if last < index { index } else { last };
                    BrowserView {
                        selected: self.selected.union(entry_keys(self.entries).subrange(lo, hi + 1).to_set()),
                        ..self
                    }
                },
                None => self,
            }
        } else {
            BrowserView { selected: Set::empty().insert(p), last_clicked: Some(index), ..self }
        }
    }

    /// Every entry added to the selection.
    pub open spec fn select_all(self) -> BrowserView {
        BrowserView { selected: self.selected.union(entry_keys(self.entries).to_set()), ..self }
    }

    /// A right click on entry `index`: an unselected entry becomes the only
    /// selected one; a selected entry keeps the selection as it is.
    pub open spec fn context_select(self, index: int) -> BrowserView {
        let p = path_key_of(self.entries[index].path@);
        if self.selected.contains(p) { self } else { BrowserView { selected: Set::empty().insert(p), ..self } }
    }

    pub open spec fn with_clipboard(self, clipboard: Seq<Seq<char>>, action: ClipboardAction) -> BrowserView {
        BrowserView { clipboard, action, ..self }
    }

    pub open spec fn with_selected(self, selected: Set<Seq<char>>) -> BrowserView {
        BrowserView { selected, ..self }
    }

    /// A drag started on empty space: nothing drag-selected yet, and the
    /// selection cleared unless Ctrl is held.
    pub open spec fn drag_press(self, ctrl: bool) -> BrowserView {
        BrowserView {
            dragging: true,
            drag_selected: Set::empty(),
            selected: if ctrl { self.selected } else { Set::empty() },
            ..self
        }
    }

    /// While dragging, the drag selection is exactly the entries the
    /// rectangle touches.
    pub open spec fn drag_update(self, hits: Set<Seq<char>>) -> BrowserView {
        if self.dragging { BrowserView { drag_selected: hits, ..self } } else { self }
    }

    /// Releasing a drag adds what it touched to the selection.
    pub open spec fn drag_release(self) -> BrowserView {
        if self.dragging {
            BrowserView {
                selected: self.selected.union(self.drag_selected),
                drag_selected: Set::empty(),
                dragging: false,
                ..self
            }
        } else {
            self
        }
    }

    /// The selection after the shortcuts of a frame: emptied by a delete of
    /// a non-empty selection, then grown by every entry on select-all.
    pub open spec fn shortcut_selection(self, keys: Shortcuts) -> Set<Seq<char>> {
        let base = if keys.delete && !self.selected.is_empty() { Set::empty() } else { self.selected };
        if keys.select_all { base.union(entry_keys(self.entries).to_set()) } else { base }
    }

    /// Shortcuts are ignored while a rename is open or a text field has focus.
    pub open spec fn shortcuts_blocked(self, focused: bool) -> bool {
        self.renaming is Some || focused
    }

    /// Whether a path, given by its key, is drawn as selected: selected, or
    /// touched by the drag.
    pub open spec fn highlighted(self, path: Seq<char>) -> bool {
        self.selected.contains(path) || self.drag_selected.contains(path)
    }
}

/// The keys and clipboard events seen in one frame.
pub struct Shortcuts {
    pub copy: bool,
    pub cut: bool,
    pub paste: bool,
    pub delete: bool,
    pub select_all: bool,
}

/// What the window must carry out after the shortcuts of a frame.
pub struct ShortcutEffects {
    /// Paste the clipboard into the current directory.
    pub paste: bool,
    /// Move these paths to the trash.
    pub delete: Option<Vec<String>>,
    /// Forget the folder tree and list the current directory again.
    pub refresh: bool,
}

/// An action chosen in the folder tree.
#[derive(PartialEq, Eq, Debug)]
pub enum TreeAction {
    Click(String),
    Copy(String),
    Cut(String),
    Delete(String),
    StartRename(String, String),
    Paste(String),
    NewFolder(String),
}

/// What the window must carry out after a tree action; every variant but
/// `Nothing` and `Navigate` also means the folder tree is to be forgotten.
#[derive(PartialEq, Eq, Debug)]
pub enum TreeEffect {
    Nothing,
    Navigate(String),
    Paste(String),
    Delete(String),
    NewFolder(String),
}

/// `paths` holds each selected path once: their keys are the selected keys,
/// none twice.
pub open spec fn lists_exactly(paths: Seq<Seq<char>>, selected: Set<Seq<char>>) -> bool {
    keys_of(paths).no_duplicates() && keys_of(paths).to_set() == selected
}

impl BrowserView {
}

/// `entries` is the display order of `listing`: sorted, the same entries,
/// and entries that sort alike keep their listing order.
pub open spec fn displays(entries: Seq<Entry>, listing: Seq<Entry>) -> bool {
    &&& sorted(entries)
    &&& entries.to_multiset() == listing.to_multiset()
    &&& forall|x: Entry| #[trigger] key_run(entries, x) == key_run(listing, x)
}


/// Adds the paths of `entries[lo..hi]` to `sel`.
fn add_entry_keys(sel: &mut Selection, entries: &Vec<Entry>, lo: usize, hi: usize)
    requires
        old(sel).wf(),
        lo <= hi <= entries@.len(),
    ensures
        final(sel).wf(),
        final(sel)@ == old(sel)@.union(entry_keys(entries@).subrange(lo as int, hi as int).to_set()),
{
    let mut i = lo;
    while i < hi
        invariant
            lo <= i <= hi,
            hi <= entries@.len(),
            sel.wf(),
            sel@ == old(sel)@.union(entry_keys(entries@).subrange(lo as int, i as int).to_set()),
        decreases hi - i,
    {
        let ghost before = entry_keys(entries@).subrange(lo as int, i as int);
        sel.insert(entries[i].path.clone());
        proof {
            assert(entry_keys(entries@).subrange(lo as int, i + 1) =~= before.push(path_key_of(entries@[i as int].path@)));
            before.lemma_push_to_set_commute(path_key_of(entries@[i as int].path@));
        }
        i = i + 1;
    }
}

/// A Ctrl-click on the same entry twice leaves the selection as it was.
pub proof fn lemma_ctrl_click_twice(v: BrowserView, index: int, shift: bool)
    requires
        0 <= index < v.entries.len(),
    ensures
        v.click(index, true, shift).click(index, true, shift).selected == v.selected,
{
    let p = path_key_of(v.entries[index].path@);
    if v.selected.contains(p) {
        assert(v.selected.remove(p).insert(p) =~= v.selected);
    } else {
        assert(v.selected.insert(p).remove(p) =~= v.selected);
    }
}

/// Whether `x` is the key of an entry at a position between `a` and `b`
/// (either way round, both included).
pub open spec fn keyed_between(entries: Seq<Entry>, a: int, b: int, x: Seq<char>) -> bool {
    exists|k: int| ((a <= k <= b) || (b <= k <= a)) && 0 <= k < entries.len()
        && x == path_key_of(#[trigger] entries[k].path@)
}

/// What a click does, case by case. A Ctrl-click flips the clicked entry in
/// the selection, leaves every other entry as it was, and makes the clicked
/// entry the anchor. A Shift-click keeps the anchor and adds, to what was
/// selected, every entry between the anchor and the clicked one (nothing
/// without an anchor). A plain click leaves only the clicked entry selected
/// and anchors on it. No click changes the listing.
pub proof fn lemma_click_cases(v: BrowserView, i: int, ctrl: bool, shift: bool, x: Seq<char>)
    requires
        0 <= i < v.entries.len(),
    ensures
        v.click(i, ctrl, shift).entries == v.entries,
        ctrl ==> v.click(i, ctrl, shift).last_clicked == Some(i),
        ctrl && x == path_key_of(v.entries[i].path@) ==> (v.click(i, ctrl, shift).selected.contains(x) <==> !v.selected.contains(x)),
        ctrl && x != path_key_of(v.entries[i].path@) ==> (v.click(i, ctrl, shift).selected.contains(x) <==> v.selected.contains(x)),
        !ctrl && shift ==> v.click(i, ctrl, shift).last_clicked == v.last_clicked,
        !ctrl && shift && v.last_clicked is None ==> v.click(i, ctrl, shift).selected == v.selected,
        !ctrl && shift && v.last_clicked is Some && 0 <= v.last_clicked->0 < v.entries.len() ==>
            (v.click(i, ctrl, shift).selected.contains(x) <==> (v.selected.contains(x) || keyed_between(v.entries, v.last_clicked->0, i, x))),
        !ctrl && !shift ==> v.click(i, ctrl, shift).last_clicked == Some(i),
        !ctrl && !shift ==> (v.click(i, ctrl, shift).selected.contains(x) <==> x == path_key_of(v.entries[i].path@)),
{
    if !ctrl && shift && v.last_clicked is Some && 0 <= v.last_clicked->0 < v.entries.len() {
        let a = v.last_clicked->0;
        let lo = if a < i { a } else { i };
        let hi = if a < i { i } else { a };
        let r = entry_keys(v.entries).subrange(lo, hi + 1);
        if r.to_set().contains(x) {
            let m = choose|m: int| 0 <= m < r.len() && r[m] == x;
            assert(r[m] == path_key_of(v.entries[lo + m].path@));
        }
        if keyed_between(v.entries, a, i, x) {
            let k = choose|k: int| ((a <= k <= i) || (i <= k <= a)) && 0 <= k < v.entries.len()
                && x == path_key_of(#[trigger] v.entries[k].path@);
            assert(r[k - lo] == x);
            assert(r.contains(x));
        }
    }
}

/// A Ctrl-click moves the anchor: a Shift-click that follows adds exactly
/// the entries between the Ctrl-clicked one and the Shift-clicked one to
/// what the Ctrl-click left selected.
pub proof fn lemma_ctrl_then_shift(v: BrowserView, i: int, j: int, shift: bool, x: Seq<char>)
    requires
        0 <= i < v.entries.len(),
        0 <= j < v.entries.len(),
    ensures
        v.click(i, true, shift).click(j, false, true).selected.contains(x)
            <==> (v.click(i, true, shift).selected.contains(x) || keyed_between(v.entries, i, j, x)),
{
    let w = v.click(i, true, shift);
    lemma_click_cases(v, i, true, shift, x);
    lemma_click_cases(w, j, false, true, x);
}

/// Select-all adds every entry of the listing to what was selected, and
/// nothing else. A right click on an entry that is not selected leaves it
/// the only selected entry; on a selected entry it changes nothing. Neither
/// moves the anchor.
pub proof fn lemma_select_all_and_context(v: BrowserView, i: int, x: Seq<char>)
    requires
        0 <= i < v.entries.len(),
    ensures
        v.select_all().selected.contains(x) <==> (v.selected.contains(x)
            || exists|k: int| 0 <= k < v.entries.len() && x == path_key_of(#[trigger] v.entries[k].path@)),
        v.select_all().last_clicked == v.last_clicked,
        v.selected.contains(path_key_of(v.entries[i].path@)) ==> v.context_select(i) == v,
        !v.selected.contains(path_key_of(v.entries[i].path@)) ==>
            (v.context_select(i).selected.contains(x) <==> x == path_key_of(v.entries[i].path@)),
        v.context_select(i).last_clicked == v.last_clicked,
{
    let r = entry_keys(v.entries);
    if r.to_set().contains(x) {
        let m = choose|m: int| 0 <= m < r.len() && r[m] == x;
        assert(r[m] == path_key_of(v.entries[m].path@));
    }
    if exists|k: int| 0 <= k < v.entries.len() && x == path_key_of(#[trigger] v.entries[k].path@) {
        let k = choose|k: int| 0 <= k < v.entries.len() && x == path_key_of(#[trigger] v.entries[k].path@);
        assert(r[k] == x);
        assert(r.contains(x));
    }
}

/// A drag, step by step. Pressing starts it with nothing drag-selected and
/// clears the selection unless Ctrl is held; while it runs, the drag
/// selection is exactly the latest hits and the selection is untouched;
/// releasing adds the drag selection to the selection, nothing else, and
/// ends it. Without a running drag, updates and releases change nothing.
pub proof fn lemma_drag_steps(v: BrowserView, ctrl: bool, hits: Set<Seq<char>>, x: Seq<char>)
    ensures
        v.drag_press(ctrl).dragging,
        v.drag_press(ctrl).drag_selected.is_empty(),
        ctrl ==> v.drag_press(ctrl).selected == v.selected,
        !ctrl ==> v.drag_press(ctrl).selected.is_empty(),
        v.dragging ==> v.drag_update(hits).drag_selected == hits && v.drag_update(hits).selected == v.selected,
        !v.dragging ==> v.drag_update(hits) == v && v.drag_release() == v,
        v.dragging ==> (v.drag_release().selected.contains(x) <==> (v.selected.contains(x) || v.drag_selected.contains(x))),
        v.dragging ==> !v.drag_release().dragging && v.drag_release().drag_selected.is_empty(),
{
}

/// A plain click selects exactly the clicked entry and anchors on it.
pub proof fn lemma_plain_click(v: BrowserView, index: int)
    requires
        0 <= index < v.entries.len(),
    ensures
        v.click(index, false, false).selected == Set::empty().insert(path_key_of(v.entries[index].path@)),
        v.click(index, false, false).last_clicked == Some(index),
{
}

/// A Shift-click after a click selects every entry between the two.
pub proof fn lemma_shift_click_range(v: BrowserView, a: int, b: int, k: int)
    requires
        0 <= a < v.entries.len(),
        0 <= b < v.entries.len(),
        (a <= k <= b) || (b <= k <= a),
    ensures
        v.click(a, false, false).click(b, false, true).selected.contains(path_key_of(v.entries[k].path@)),
{
    let w = v.click(a, false, false);
    let lo = if a < b { a } else { b };
    let hi = if a < b { b } else { a };
    assert(entry_keys(w.entries).subrange(lo, hi + 1)[k - lo] == path_key_of(v.entries[k].path@));
}

/// After a drag is released, everything it touched is selected, and it no
/// longer highlights anything of its own.
pub proof fn lemma_drag_release_keeps(v: BrowserView, path: Seq<char>)
    requires
        v.dragging,
        v.highlighted(path),
    ensures
        v.drag_release().selected.contains(path),
        !v.drag_release().dragging,
        v.drag_release().drag_selected.is_empty(),
{
}

/// Showing a directory starts from an empty selection and no anchor.
pub proof fn lemma_load_clears_selection(v: BrowserView, path: Seq<char>, entries: Seq<Entry>)
    ensures
        v.load(path, entries).selected.is_empty(),
        v.load(path, entries).last_clicked is None,
        !v.load(path, entries).dragging,
        v.load(path, entries).current_dir == path,
        v.load(path, entries).path_input == path,
{
}

/// Navigating to the same directory twice in a row is one navigation: the
/// history, the directory shown and the last navigation are as after the
/// first; only the listing is read again.
pub proof fn lemma_navigate_twice(v: BrowserView, path: Seq<char>, first: Seq<Entry>, second: Seq<Entry>)
    requires
        v.history.wf(),
    ensures
        v.navigate(path, first).navigate(path, second) == v.navigate(path, second),
{
    lemma_visit_twice(v.history, path);
}

pub struct BrowserState {
    current_dir: String,
    entries: Vec<Entry>,
    file_manager: FileManager,
    view_mode: ViewMode,
    selection: Selection,
    last_clicked: Option<usize>,
    dragging: bool,
    drag_selection: Selection,
    renaming: Option<String>,
    rename_buffer: String,
    show_preview: bool,
    path_input: String,
    history: History,
    last_navigated: Option<String>,
    theme: AppTheme,
    use_os_icons: bool,
}

impl View for BrowserState {
    type V = BrowserView;

    closed spec fn view(&self) -> BrowserView {
        BrowserView {
            current_dir: self.current_dir@,
            entries: self.entries@,
            clipboard: views(self.file_manager.clipboard@),
            action: self.file_manager.action,
            view_mode: self.view_mode,
            selected: self.selection@,
            last_clicked: match self.last_clicked {
                Some(i) => Some(i as int),
                None => None,
            },
            dragging: self.dragging,
            drag_selected: self.drag_selection@,
            renaming: opt_view(self.renaming),
            rename_buffer: self.rename_buffer@,
            show_preview: self.show_preview,
            path_input: self.path_input@,
            history: self.history@,
            last_navigated: opt_view(self.last_navigated),
            theme: self.theme,
            use_os_icons: self.use_os_icons,
        }
    }
}

impl BrowserState {
    pub closed spec fn wf(&self) -> bool {
        &&& self@.wf()
        &&& self.selection.wf()
        &&& self.drag_selection.wf()
        &&& self.file_manager.wf()
    }

    /// Every state reached through the methods below keeps the invariants of
    /// `BrowserView::wf`: the history has a current position, the click
    /// anchor is a listed entry, a filled clipboard says how it was filled,
    /// the directory shown is the history's current one, and only a running
    /// drag touches anything.
    pub proof fn lemma_view_wf(&self)
        requires
            self.wf(),
        ensures
            self@.wf(),
    {
    }

    closed spec fn parts_wf(&self) -> bool {
        &&& self.selection.wf()
        &&& self.drag_selection.wf()
        &&& self.history@.wf()
        &&& self.file_manager.wf()
        &&& self.last_clicked matches Some(i) ==> i < self.entries@.len()
        &&& !self.drag_selection@.is_empty() ==> self.dragging
    }

    proof fn lemma_wf(&self)
        requires
            self.parts_wf(),
            self@.shows_history_current(),
        ensures
            self.wf(),
    {
        self.selection.lemma_wf();
        self.drag_selection.lemma_wf();
        assert(self.file_manager.clipboard@.len() == views(self.file_manager.clipboard@).len());
    }

    /// The window's state at start-up, showing `start_dir` with `listing`:
    /// grid view, light theme, system icons on, no preview, and a history
    /// holding only `start_dir`.
    pub fn new(start_dir: String, listing: Vec<Entry>) -> (s: BrowserState)
        ensures
            s.wf(),
            displays(s@.entries, listing@),
            s@.current_dir == start_dir@,
            s@.clipboard.len() == 0,
            s@.action == ClipboardAction::NoAction,
            s@.view_mode == ViewMode::Grid,
            s@.selected.is_empty(),
            s@.last_clicked is None,
            !s@.dragging,
            s@.drag_selected.is_empty(),
            s@.renaming is None,
            s@.rename_buffer.len() == 0,
            !s@.show_preview,
            s@.path_input == start_dir@,
            s@.history.paths == seq![start_dir@],
            s@.history.index == 0,
            s@.last_navigated is None,
            s@.theme == AppTheme::Light,
            s@.use_os_icons,
    {
        let mut s = BrowserState {
            current_dir: start_dir.clone(),
            entries: Vec::new(),
            file_manager: FileManager::new(),
            view_mode: ViewMode::Grid,
            selection: Selection::new(),
            last_clicked: None,
            dragging: false,
            drag_selection: Selection::new(),
            renaming: None,
            rename_buffer: String::new(),
            show_preview: false,
            path_input: start_dir.clone(),
            history: History::new(start_dir.clone()),
            last_navigated: None,
            theme: AppTheme::Light,
            use_os_icons: true,
        };
        proof { s.lemma_wf(); }
        s.load_dir(start_dir, listing);
        proof {
            assert(views(s.file_manager.clipboard@) =~= Seq::<Seq<char>>::empty());
        }
        s
    }

    fn show(&mut self, path: String, listing: Vec<Entry>)
        requires
            old(self).parts_wf(),
        ensures
            final(self).parts_wf(),
            displays(final(self)@.entries, listing@),
            final(self)@ == old(self)@.load(path@, final(self)@.entries),
    {
        self.current_dir = path.clone();
        self.entries = sort_entries(listing);
        self.selection.clear();
        self.last_clicked = None;
        self.dragging = false;
        self.drag_selection.clear();
        self.path_input = path;
        assert(self@ =~= old(self)@.load(path@, self@.entries));
    }

    /// Shows directory `path` with its `listing` (see `BrowserView::load`);
    /// `path` is the history's current directory.
    pub fn load_dir(&mut self, path: String, listing: Vec<Entry>)
        requires
            old(self).wf(),
            old(self)@.history.current() == path@ || same_path(old(self)@.history.current(), path@),
        ensures
            final(self).wf(),
            displays(final(self)@.entries, listing@),
            final(self)@ == old(self)@.load(path@, final(self)@.entries),
    {
        self.show(path, listing);
        proof { self.lemma_wf(); }
    }

    /// Goes to `path`, shown with its `listing` (see `BrowserView::navigate`).
    pub fn navigate_to(&mut self, path: String, listing: Vec<Entry>)
        requires
            old(self).wf(),
        ensures
            final(self).wf(),
            displays(final(self)@.entries, listing@),
            final(self)@ == old(self)@.navigate(path@, final(self)@.entries),
    {
        self.history.visit(path.clone());
        self.last_navigated = Some(path.clone());
        self.show(path, listing);
        proof { self.lemma_wf(); }
        assert(self@ =~= old(self)@.navigate(path@, self@.entries));
    }

    /// Lists the current directory again.
    pub fn refresh(&mut self, listing: Vec<Entry>)
        requires
            old(self).wf(),
        ensures
            final(self).wf(),
            displays(final(self)@.entries, listing@),
            final(self)@ == old(self)@.load(old(self)@.current_dir, final(self)@.entries),
    {
        let dir = self.current_dir.clone();
        self.load_dir(dir, listing);
    }

    /// The directory one step back in the history, if any.
    pub fn back_target(&self) -> (r: Option<String>)
        requires
            self.wf(),
        ensures
            r is Some <==> self@.history.can_go_back(),
            r matches Some(p) ==> p@ == self@.history.back().current(),
    {
        if self.history.can_go_back() {
            Some(self.history.peek_back())
        } else {
            None
        }
    }

    /// The directory one step forward in the history, if any.
    pub fn forward_target(&self) -> (r: Option<String>)
        requires
            self.wf(),
        ensures
            r is Some <==> self@.history.can_go_forward(),
            r matches Some(p) ==> p@ == self@.history.forward().current(),
    {
        if self.history.can_go_forward() {
            Some(self.history.peek_forward())
        } else {
            None
        }
    }

    /// Steps back in the history and shows that directory with `listing`.
    pub fn go_back(&mut self, listing: Vec<Entry>)
        requires
            old(self).wf(),
            old(self)@.history.can_go_back(),
        ensures
            final(self).wf(),
            displays(final(self)@.entries, listing@),
            final(self)@ == (BrowserView { history: old(self)@.history.back(), ..old(self)@ }).load(
                old(self)@.history.back().current(),
                final(self)@.entries,
            ),
    {
        let p = self.history.back();
        self.show(p, listing);
        proof { self.lemma_wf(); }
        assert(self@ =~= (BrowserView { history: old(self)@.history.back(), ..old(self)@ }).load(
            old(self)@.history.back().current(), self@.entries));
    }

    /// Steps forward in the history and shows that directory with `listing`.
    pub fn go_forward(&mut self, listing: Vec<Entry>)
        requires
            old(self).wf(),
            old(self)@.history.can_go_forward(),
        ensures
            final(self).wf(),
            displays(final(self)@.entries, listing@),
            final(self)@ == (BrowserView { history: old(self)@.history.forward(), ..old(self)@ }).load(
                old(self)@.history.forward().current(),
                final(self)@.entries,
            ),
    {
        let p = self.history.forward();
        self.show(p, listing);
        proof { self.lemma_wf(); }
        assert(self@ =~= (BrowserView { history: old(self)@.history.forward(), ..old(self)@ }).load(
            old(self)@.history.forward().current(), self@.entries));
    }

    pub fn can_go_back(&self) -> (b: bool)
        requires
            self.wf(),
        ensures
            b == self@.history.can_go_back(),
    {
        self.history.can_go_back()
    }

    pub fn can_go_forward(&self) -> (b: bool)
        requires
            self.wf(),
        ensures
            b == self@.history.can_go_forward(),
    {
        self.history.can_go_forward()
    }

    /// Handles a click on entry `index` (see `BrowserView::click`).
    pub fn click(&mut self, index: usize, ctrl: bool, shift: bool)
        requires
            old(self).wf(),
            index < old(self)@.entries.len(),
        ensures
            final(self).wf(),
            final(self)@ == old(self)@.click(index as int, ctrl, shift),
    {
        let path = self.entries[index].path.clone();
        let n = self.entries.len();
        if ctrl {
            self.selection.toggle(path);
            self.last_clicked = Some(index);
        } else if shift {
            match self.last_clicked {
                Some(last) => {
                    let lo = if last < index { last } else { index };
                    let hi = if last < index { index } else { last };
                    assert(hi < n);
                    add_entry_keys(&mut self.selection, &self.entries, lo, hi + 1);
                },
                None => {},
            }
        } else {
            self.selection.clear();
            self.selection.insert(path);
            self.last_clicked = Some(index);
        }
        proof { self.lemma_wf(); }
        assert(self@ =~= old(self)@.click(index as int, ctrl, shift));
    }

    /// Adds every entry to the selection.
    pub fn select_all(&mut self)
        requires
            old(self).wf(),
        ensures
            final(self).wf(),
            final(self)@ == old(self)@.select_all(),
    {
        let n = self.entries.len();
        add_entry_keys(&mut self.selection, &self.entries, 0, n);
        assert(entry_keys(self.entries@).subrange(0, n as int) =~= entry_keys(self.entries@));
        proof { self.lemma_wf(); }
        assert(self@ =~= old(self)@.select_all());
    }

    /// Handles a right click on entry `index` (see `BrowserView::context_select`).
    pub fn context_select(&mut self, index: usize)
        requires
            old(self).wf(),
            index < old(self)@.entries.len(),
        ensures
            final(self).wf(),
            final(self)@ == old(self)@.context_select(index as int),
    {
        let path = self.entries[index].path.clone();
        if !self.selection.contains(&path) {
            self.selection.clear();
            self.selection.insert(path);
        }
        proof { self.lemma_wf(); }
        assert(self@ =~= old(self)@.context_select(index as int));
    }

    /// The selected paths, each once.
    pub fn selected_paths(&self) -> (v: Vec<String>)
        requires
            self.wf(),
        ensures
            lists_exactly(views(v@), self@.selected),
    {
        self.selection.paths()
    }

    pub fn selected_count(&self) -> (n: usize)
        requires
            self.wf(),
        ensures
            n == self@.selected.len(),
    {
        self.selection.len()
    }

    /// The selected path when exactly one is selected.
    pub fn single_selected(&self) -> (r: Option<String>)
        requires
            self.wf(),
        ensures
            r is Some <==> self@.selected.len() == 1,
            r matches Some(p) ==> self@.selected == Set::empty().insert(path_key_of(p@)),
    {
        let v = self.selection.paths();
        if v.len() == 1 {
            let p = v[0].clone();
            proof {
                self.selection.lemma_wf();
                let ks = keys_of(views(v@));
                assert(ks =~= seq![path_key_of(p@)]);
                assert forall|x: Seq<char>| ks.to_set().contains(x) <==> x == path_key_of(p@) by {
                    if ks.contains(x) {
                        assert(ks[0] == x);
                    }
                    if x == path_key_of(p@) {
                        assert(ks[0] == x);
                    }
                }
                assert(ks.to_set() =~= Set::empty().insert(path_key_of(p@)));
            }
            Some(p)
        } else {
            proof {
                self.selection.lemma_wf();
            }
            None
        }
    }

    /// Whether `path` is drawn as selected (see `BrowserView::highlighted`).
    pub fn is_highlighted(&self, path: &String) -> (b: bool)
        requires
            self.wf(),
        ensures
            b == self@.highlighted(path_key_of(path@)),
    {
        self.selection.contains(path) || self.drag_selection.contains(path)
    }

    /// Puts `paths` on the clipboard for copying.
    pub fn copy_paths(&mut self, paths: Vec<String>)
        requires
            old(self).wf(),
        ensures
            final(self).wf(),
            final(self)@ == old(self)@.with_clipboard(views(paths@), ClipboardAction::Copy),
    {
        self.file_manager.copy_to_clipboard(paths);
        proof { self.lemma_wf(); }
        assert(self@ =~= old(self)@.with_clipboard(views(paths@), ClipboardAction::Copy));
    }

    /// Puts `paths` on the clipboard for moving.
    pub fn cut_paths(&mut self, paths: Vec<String>)
        requires
            old(self).wf(),
        ensures
            final(self).wf(),
            final(self)@ == old(self)@.with_clipboard(views(paths@), ClipboardAction::Cut),
    {
        self.file_manager.cut_to_clipboard(paths);
        proof { self.lemma_wf(); }
        assert(self@ =~= old(self)@.with_clipboard(views(paths@), ClipboardAction::Cut));
    }

    /// Copies the selection to the clipboard, when something is selected.
    pub fn copy_selection(&mut self) -> (done: bool)
        requires
            old(self).wf(),
        ensures
            final(self).wf(),
            done == !old(self)@.selected.is_empty(),
            done ==> final(self)@ == old(self)@.with_clipboard(final(self)@.clipboard, ClipboardAction::Copy)
                && lists_exactly(final(self)@.clipboard, old(self)@.selected),
            !done ==> final(self)@ == old(self)@,
    {
        let paths = self.selection.paths();
        proof { self.selection.lemma_wf(); }
        if paths.len() > 0 {
            self.copy_paths(paths);
            true
        } else {
            assert(old(self)@.selected.is_empty()) by {
                assert(views(paths@).len() == 0);
                assert(views(paths@).to_set() =~= Set::<Seq<char>>::empty());
            }
            false
        }
    }

    /// Cuts the selection to the clipboard, when something is selected.
    pub fn cut_selection(&mut self) -> (done: bool)
        requires
            old(self).wf(),
        ensures
            final(self).wf(),
            done == !old(self)@.selected.is_empty(),
            done ==> final(self)@ == old(self)@.with_clipboard(final(self)@.clipboard, ClipboardAction::Cut)
                && lists_exactly(final(self)@.clipboard, old(self)@.selected),
            !done ==> final(self)@ == old(self)@,
    {
        let paths = self.selection.paths();
        proof { self.selection.lemma_wf(); }
        if paths.len() > 0 {
            self.cut_paths(paths);
            true
        } else {
            assert(old(self)@.selected.is_empty()) by {
                assert(views(paths@).len() == 0);
                assert(views(paths@).to_set() =~= Set::<Seq<char>>::empty());
            }
            false
        }
    }

    /// Handles the shortcuts of a frame: copy and cut take the selection
    /// when there is one (cut after copy), paste is left to the window,
    /// delete hands over a non-empty selection and clears it, select-all adds
    /// every entry; the window lists the directory again after a paste or a
    /// delete. Nothing happens while a rename is open or a text field has focus.
    pub fn handle_shortcuts(&mut self, focused: bool, keys: &Shortcuts) -> (fx: ShortcutEffects)
        requires
            old(self).wf(),
        ensures
            final(self).wf(),
            old(self)@.shortcuts_blocked(focused) ==> {
                &&& final(self)@ == old(self)@
                &&& !fx.paste
                &&& fx.delete is None
                &&& !fx.refresh
            },
            !old(self)@.shortcuts_blocked(focused) ==> {
                let nonempty = !old(self)@.selected.is_empty();
                let copied = (keys.copy || keys.cut) && nonempty;
                &&& copied ==> lists_exactly(final(self)@.clipboard, old(self)@.selected)
                    && final(self)@.action == (if keys.cut { ClipboardAction::Cut } else { ClipboardAction::Copy })
                &&& !copied ==> final(self)@.clipboard == old(self)@.clipboard && final(self)@.action == old(self)@.action
                &&& fx.paste == keys.paste
                &&& (keys.delete && nonempty) ==> (fx.delete matches Some(d) && lists_exactly(views(d@), old(self)@.selected))
                &&& !(keys.delete && nonempty) ==> fx.delete is None
                &&& fx.refresh == (keys.paste || (keys.delete && nonempty))
                &&& final(self)@ == old(self)@.with_clipboard(final(self)@.clipboard, final(self)@.action).with_selected(
                    old(self)@.shortcut_selection(*keys),
                )
            },
    {
        let mut fx = ShortcutEffects { paste: false, delete: None, refresh: false };
        if self.renaming.is_some() || focused {
            return fx;
        }
        proof { self.selection.lemma_wf(); }
        let nonempty = !self.selection.is_empty();
        if keys.copy {
            self.copy_selection();
        }
        if keys.cut {
            self.cut_selection();
        }
        let ghost after_clip = self@;
        if keys.paste {
            fx.paste = true;
            fx.refresh = true;
        }
        if keys.delete {
            let paths = self.selection.paths();
            if nonempty {
                fx.delete = Some(paths);
                fx.refresh = true;
                self.selection.clear();
            }
        }
        if keys.select_all {
            self.select_all();
        }
        proof { self.lemma_wf(); }
        assert(self@ =~= old(self)@.with_clipboard(self@.clipboard, self@.action).with_selected(
            old(self)@.shortcut_selection(*keys)));
        fx
    }

    /// Forgets where the last navigation went (the tree has opened toward it).
    pub fn clear_last_navigated(&mut self)
        requires
            old(self).wf(),
        ensures
            final(self).wf(),
            final(self)@ == (BrowserView { last_navigated: None, ..old(self)@ }),
    {
        self.last_navigated = None;
        proof { self.lemma_wf(); }
        assert(self@ =~= (BrowserView { last_navigated: None, ..old(self)@ }));
    }

    /// Carries out the part of a folder-tree action that concerns this
    /// state and says what the window must do: open, paste into, delete or
    /// create a folder in the chosen folder. Copy and cut fill the clipboard
    /// with the folder; a rename starts with its shown name.
    pub fn apply_tree_action(&mut self, action: TreeAction) -> (fx: TreeEffect)
        requires
            old(self).wf(),
        ensures
            final(self).wf(),
            match action {
                TreeAction::Click(p) => fx == TreeEffect::Navigate(p) && final(self)@ == old(self)@,
                TreeAction::Copy(p) => fx is Nothing
                    && final(self)@ == old(self)@.with_clipboard(seq![p@], ClipboardAction::Copy),
                TreeAction::Cut(p) => fx is Nothing
                    && final(self)@ == old(self)@.with_clipboard(seq![p@], ClipboardAction::Cut),
                TreeAction::Delete(p) => fx == TreeEffect::Delete(p) && final(self)@ == old(self)@,
                TreeAction::StartRename(p, name) => fx is Nothing
                    && final(self)@ == (BrowserView { renaming: Some(p@), rename_buffer: name@, ..old(self)@ }),
                TreeAction::Paste(p) => fx == TreeEffect::Paste(p) && final(self)@ == old(self)@,
                TreeAction::NewFolder(p) => fx == TreeEffect::NewFolder(p) && final(self)@ == old(self)@,
            },
    {
        match action {
            TreeAction::Click(p) => TreeEffect::Navigate(p),
            TreeAction::Copy(p) => {
                let mut v: Vec<String> = Vec::new();
                v.push(p);
                assert(views(v@) =~= seq![p@]);
                self.copy_paths(v);
                TreeEffect::Nothing
            },
            TreeAction::Cut(p) => {
                let mut v: Vec<String> = Vec::new();
                v.push(p);
                assert(views(v@) =~= seq![p@]);
                self.cut_paths(v);
                TreeEffect::Nothing
            },
            TreeAction::Delete(p) => TreeEffect::Delete(p),
            TreeAction::StartRename(p, name) => {
                self.start_rename(p, name);
                TreeEffect::Nothing
            },
            TreeAction::Paste(p) => TreeEffect::Paste(p),
            TreeAction::NewFolder(p) => TreeEffect::NewFolder(p),
        }
    }

    /// Opens the rename dialog for `path`, its field holding `name`.
    pub fn start_rename(&mut self, path: String, name: String)
        requires
            old(self).wf(),
        ensures
            final(self).wf(),
            final(self)@ == (BrowserView { renaming: Some(path@), rename_buffer: name@, ..old(self)@ }),
    {
        self.renaming = Some(path);
        self.rename_buffer = name;
        proof { self.lemma_wf(); }
        assert(self@ =~= (BrowserView { renaming: Some(path@), rename_buffer: name@, ..old(self)@ }));
    }

    /// Replaces the text of the rename field.
    pub fn set_rename_buffer(&mut self, text: String)
        requires
            old(self).wf(),
        ensures
            final(self).wf(),
            final(self)@ == (BrowserView { rename_buffer: text@, ..old(self)@ }),
    {
        self.rename_buffer = text;
        proof { self.lemma_wf(); }
        assert(self@ =~= (BrowserView { rename_buffer: text@, ..old(self)@ }));
    }

    /// Confirms the rename dialog: it closes, and the path with its new name
    /// is handed out unless the field is empty.
    pub fn commit_rename(&mut self) -> (r: Option<(String, String)>)
        requires
            old(self).wf(),
        ensures
            final(self).wf(),
            final(self)@ == (BrowserView { renaming: None, ..old(self)@ }),
            r is Some <==> old(self)@.renaming is Some && old(self)@.rename_buffer.len() > 0,
            r matches Some((p, n)) ==> old(self)@.renaming == Some(p@) && n@ == old(self)@.rename_buffer,
    {
        let target = self.renaming.take();
        proof { self.lemma_wf(); }
        assert(self@ =~= (BrowserView { renaming: None, ..old(self)@ }));
        match target {
            Some(p) => {
                if self.rename_buffer.as_str().unicode_len() > 0 {
                    Some((p, self.rename_buffer.clone()))
                } else {
                    None
                }
            },
            None => None,
        }
    }

    /// Closes the rename dialog without renaming.
    pub fn cancel_rename(&mut self)
        requires
            old(self).wf(),
        ensures
            final(self).wf(),
            final(self)@ == (BrowserView { renaming: None, ..old(self)@ }),
    {
        self.renaming = None;
        proof { self.lemma_wf(); }
        assert(self@ =~= (BrowserView { renaming: None, ..old(self)@ }));
    }

    /// Starts a drag on empty space (see `BrowserView::drag_press`).
    pub fn drag_press(&mut self, ctrl: bool)
        requires
            old(self).wf(),
        ensures
            final(self).wf(),
            final(self)@ == old(self)@.drag_press(ctrl),
    {
        self.dragging = true;
        self.drag_selection.clear();
        if !ctrl {
            self.selection.clear();
        }
        proof { self.lemma_wf(); }
        assert(self@ =~= old(self)@.drag_press(ctrl));
    }

    /// Sets the paths the drag rectangle touches (see `BrowserView::drag_update`).
    pub fn drag_update(&mut self, hits: &Vec<String>)
        requires
            old(self).wf(),
        ensures
            final(self).wf(),
            final(self)@ == old(self)@.drag_update(keys_of(views(hits@)).to_set()),
    {
        if self.dragging {
            self.drag_selection.clear();
            self.drag_selection.insert_all(hits);
            assert(Set::<Seq<char>>::empty().union(keys_of(views(hits@)).to_set()) =~= keys_of(views(hits@)).to_set());
        }
        proof { self.lemma_wf(); }
        assert(self@ =~= old(self)@.drag_update(keys_of(views(hits@)).to_set()));
    }

    /// Ends a drag (see `BrowserView::drag_release`).
    pub fn drag_release(&mut self)
        requires
            old(self).wf(),
        ensures
            final(self).wf(),
            final(self)@ == old(self)@.drag_release(),
    {
        if self.dragging {
            let touched = self.drag_selection.paths();
            self.selection.insert_all(&touched);
            self.drag_selection.clear();
            self.dragging = false;
        }
        proof { self.lemma_wf(); }
        assert(self@ =~= old(self)@.drag_release());
    }

    pub fn is_dragging(&self) -> (b: bool)
        ensures
            b == self@.dragging,
    {
        self.dragging
    }

    pub fn set_view_mode(&mut self, mode: ViewMode)
        requires
            old(self).wf(),
        ensures
            final(self).wf(),
            final(self)@ == (BrowserView { view_mode: mode, ..old(self)@ }),
    {
        self.view_mode = mode;
        proof { self.lemma_wf(); }
        assert(self@ =~= (BrowserView { view_mode: mode, ..old(self)@ }));
    }

    pub fn set_theme(&mut self, theme: AppTheme)
        requires
            old(self).wf(),
        ensures
            final(self).wf(),
            final(self)@ == (BrowserView { theme: theme, ..old(self)@ }),
    {
        self.theme = theme;
        proof { self.lemma_wf(); }
        assert(self@ =~= (BrowserView { theme: theme, ..old(self)@ }));
    }

    /// Shows the preview panel when hidden, hides it when shown.
    pub fn toggle_preview(&mut self)
        requires
            old(self).wf(),
        ensures
            final(self).wf(),
            final(self)@ == (BrowserView { show_preview: !old(self)@.show_preview, ..old(self)@ }),
    {
        self.show_preview = !self.show_preview;
        proof { self.lemma_wf(); }
        assert(self@ =~= (BrowserView { show_preview: !old(self)@.show_preview, ..old(self)@ }));
    }

    /// Sets whether system icons stand in for missing thumbnails; the result
    /// says whether the setting changed (the window then drops its thumbnails
    /// and the folder tree).
    pub fn set_use_os_icons(&mut self, on: bool) -> (changed: bool)
        requires
            old(self).wf(),
        ensures
            final(self).wf(),
            final(self)@ == (BrowserView { use_os_icons: on, ..old(self)@ }),
            changed == (on != old(self)@.use_os_icons),
    {
        let changed = self.use_os_icons != on;
        self.use_os_icons = on;
        proof { self.lemma_wf(); }
        assert(self@ =~= (BrowserView { use_os_icons: on, ..old(self)@ }));
        changed
    }

    /// Replaces the text of the address bar.
    pub fn set_path_input(&mut self, text: String)
        requires
            old(self).wf(),
        ensures
            final(self).wf(),
            final(self)@ == (BrowserView { path_input: text@, ..old(self)@ }),
    {
        self.path_input = text;
        proof { self.lemma_wf(); }
        assert(self@ =~= (BrowserView { path_input: text@, ..old(self)@ }));
    }

    /// Starts a paste of the clipboard (see `FileManager::begin_paste`).
    pub fn begin_paste(&self) -> (r: Result<PasteSession, String>)
        requires
            self.wf(),
        ensures
            r is Err <==> self@.clipboard.len() == 0,
            r matches Err(e) ==> e@ == "Clipboard is empty"@,
            r matches Ok(s) ==> {
                &&& views(s.sources@) == self@.clipboard
                &&& s.handled == 0
                &&& s.success_count == 0
                &&& s.errors@.len() == 0
            },
    {
        self.file_manager.begin_paste()
    }

    /// How a clipboard entry is transferred (see `transfer_for`).
    pub fn transfer_kind(&self, src_is_dir: bool) -> (k: TransferKind)
        ensures
            k == transfer_for(self@.action, src_is_dir),
    {
        self.file_manager.transfer_kind(src_is_dir)
    }

    /// Ends a paste (see `FileManager::finish_paste`): a cut whose every
    /// entry was moved empties the clipboard.
    pub fn finish_paste(&mut self, session: PasteSession) -> (r: Result<String, String>)
        requires
            old(self).wf(),
        ensures
            final(self).wf(),
            (old(self)@.action == ClipboardAction::Cut && session.success_count == old(self)@.clipboard.len())
                ==> final(self)@ == old(self)@.with_clipboard(Seq::empty(), ClipboardAction::NoAction),
            !(old(self)@.action == ClipboardAction::Cut && session.success_count == old(self)@.clipboard.len())
                ==> final(self)@ == old(self)@,
            r is Ok <==> session.errors@.len() == 0,
            r matches Ok(msg) ==> msg@ == "Paste successful"@,
            r matches Err(msg) ==> msg@ == joined(views(session.errors@), seq!['\n']),
    {
        let ghost clears = paste_clears(self.file_manager, session);
        let r = self.file_manager.finish_paste(session);
        proof {
            self.lemma_wf();
            if clears {
                assert(views(self.file_manager.clipboard@) =~= Seq::<Seq<char>>::empty());
                assert(self@ =~= old(self)@.with_clipboard(Seq::empty(), ClipboardAction::NoAction));
            }
        }
        r
    }

    /// The paths on the clipboard.
    pub fn clipboard(&self) -> (v: Vec<String>)
        ensures
            views(v@) == self@.clipboard,
    {
        self.file_manager.clipboard.clone()
    }

    pub fn current_dir(&self) -> (p: String)
        ensures
            p@ == self@.current_dir,
    {
        self.current_dir.clone()
    }

    pub fn entries(&self) -> (v: &Vec<Entry>)
        ensures
            v@ == self@.entries,
    {
        &self.entries
    }

    pub fn view_mode(&self) -> (m: ViewMode)
        ensures
            m == self@.view_mode,
    {
        self.view_mode
    }

    pub fn theme(&self) -> (t: AppTheme)
        ensures
            t == self@.theme,
    {
        self.theme
    }

    pub fn show_preview(&self) -> (b: bool)
        ensures
            b == self@.show_preview,
    {
        self.show_preview
    }

    pub fn use_os_icons(&self) -> (b: bool)
        ensures
            b == self@.use_os_icons,
    {
        self.use_os_icons
    }

    pub fn path_input(&self) -> (p: String)
        ensures
            p@ == self@.path_input,
    {
        self.path_input.clone()
    }

    pub fn renaming(&self) -> (r: Option<String>)
        ensures
            opt_view(r) == self@.renaming,
    {
        self.renaming.clone()
    }

    pub fn rename_buffer(&self) -> (r: String)
        ensures
            r@ == self@.rename_buffer,
    {
        self.rename_buffer.clone()
    }

    pub fn last_navigated(&self) -> (r: Option<String>)
        ensures
            opt_view(r) == self@.last_navigated,
    {
        self.last_navigated.clone()
    }

    /// The directory the Up button goes to: the parent of the current one.
    pub fn up_target(&self) -> (r: Option<String>)
        ensures
            match r {
                Some(p) => parent_of(self@.current_dir) == Some(p@),
                None => parent_of(self@.current_dir) is None,
            },
    {
        path_parent(self.current_dir.as_str())
    }

    /// Opens the rename dialog for the selection when exactly one path is
    /// selected, its field holding that path's file name.
    pub fn start_rename_selected(&mut self) -> (started: bool)
        requires
            old(self).wf(),
        ensures
            final(self).wf(),
            started == (old(self)@.selected.len() == 1),
            started ==> exists|p: Seq<char>| old(self)@.selected == Set::empty().insert(path_key_of(p))
                && final(self)@ == (BrowserView { renaming: Some(p), rename_buffer: shown_file_name(p), ..old(self)@ }),
            !started ==> final(self)@ == old(self)@,
    {
        match self.single_selected() {
            Some(p) => {
                let name = file_name_text(p.as_str());
                self.start_rename(p, name);
                true
            },
            None => false,
        }
    }
}

} // verus!
