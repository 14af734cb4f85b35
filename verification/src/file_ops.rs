//! The clipboard of the file manager and the bookkeeping of a paste:
//! which transfer each source needs, which name it lands under when the
//! target name is taken, and what the paste reports at the end.
use vstd::prelude::*;
use crate::paths::{debug_text_of, extension_of, file_name_of, file_stem_of, or_empty, path_debug_text, path_extension, path_file_name, path_file_stem, text_or_empty};
use crate::text::{chars_of, decimal, lemma_decimal_injective, lemma_decimal_len, join_with, joined, push_char, push_decimal, push_str, views};

verus! {

/// What the clipboard was filled by.
#[derive(Clone, Copy, PartialEq, Eq, Structural, Debug)]
pub enum ClipboardAction {
    NoAction,
    Copy,
    Cut,
}

/// The clipboard: the paths it holds and how they were put there.
pub struct FileManager {
    pub clipboard: Vec<String>,
    pub action: ClipboardAction,
}

/// How one clipboard entry is brought to the target directory.
#[derive(Clone, Copy, PartialEq, Eq, Structural, Debug)]
pub enum TransferKind {
    /// Recursive copy of a directory (its contents land inside the target).
    CopyDir,
    /// Copy of a single file.
    CopyFile,
    /// Rename of the source into the target directory.
    Move,
}

/// The running account of a paste: the clipboard entries to bring over, how
/// many of them were handled (in order), how many were transferred, and the
/// message of each failure.
pub struct PasteSession {
    pub sources: Vec<String>,
    pub handled: usize,
    pub success_count: usize,
    pub errors: Vec<String>,
}

pub open spec fn transfer_for(action: ClipboardAction, src_is_dir: bool) -> TransferKind {
    if action == ClipboardAction::Copy {
        if src_is_dir { TransferKind::CopyDir } else { TransferKind::CopyFile }
    } else {
        TransferKind::Move
    }
}

/// `base (n)`.
pub open spec fn numbered(base: Seq<char>, n: nat) -> Seq<char> {
    base + seq![' ', '('] + decimal(n) + seq![')']
}

/// The name a pasted entry is tried under at attempt `n`: its own file name
/// first, then `stem (n)` or `stem (n).ext`.
pub open spec fn paste_candidate(file_name: Seq<char>, stem: Seq<char>, ext: Seq<char>, n: nat) -> Seq<char> {
    if n == 0 {
        file_name
    } else if ext.len() == 0 {
        numbered(stem, n)
    } else {
        numbered(stem, n) + seq!['.'] + ext
    }
}

/// The name a new folder is tried under at attempt `n`: `name`, then `name (n)`.
pub open spec fn folder_candidate(name: Seq<char>, n: nat) -> Seq<char> {
    if n == 0 { name } else { numbered(name, n) }
}

/// The message recorded for a clipboard entry that could not be transferred.
pub open spec fn failure_message(src_debug: Seq<char>, error: Seq<char>) -> Seq<char> {
    seq!['F', 'a', 'i', 'l', 'e', 'd', ' '] + src_debug + seq![':', ' '] + error
}

/// The next source, from position `from` on, that has a file name: sources
/// without one are passed over (or `sources.len()` when none is left).
pub open spec fn next_named(sources: Seq<Seq<char>>, from: int) -> int
    decreases sources.len() - from,
{
    if from < 0 || from >= sources.len() {
        sources.len() as int
    } else if file_name_of(sources[from]) is Some {
        from
    } else {
        next_named(sources, from + 1)
    }
}

/// One clipboard entry to transfer: its path and the parts of its file name.
pub struct PasteItem {
    pub source: String,
    pub file_name: String,
    pub stem: String,
    pub ext: String,
}

/// Whether finishing `session` empties the clipboard: a cut whose every
/// entry was moved.
pub open spec fn paste_clears(m: FileManager, session: PasteSession) -> bool {
    m.action == ClipboardAction::Cut && session.success_count == m.clipboard@.len()
}

impl FileManager {
    /// A non-empty clipboard always says how it was filled.
    pub open spec fn wf(&self) -> bool {
        self.clipboard@.len() > 0 ==> self.action != ClipboardAction::NoAction
    }

    pub fn new() -> (m: FileManager)
        ensures
            m.clipboard@ == Seq::<String>::empty(),
            m.action == ClipboardAction::NoAction,
            m.wf(),
    {
        FileManager { clipboard: Vec::new(), action: ClipboardAction::NoAction }
    }

    /// Puts `paths` on the clipboard for copying.
    pub fn copy_to_clipboard(&mut self, paths: Vec<String>)
        ensures
            final(self).clipboard@ == paths@,
            final(self).action == ClipboardAction::Copy,
            final(self).wf(),
    {
        self.clipboard = paths;
        self.action = ClipboardAction::Copy;
    }

    /// Puts `paths` on the clipboard for moving.
    pub fn cut_to_clipboard(&mut self, paths: Vec<String>)
        ensures
            final(self).clipboard@ == paths@,
            final(self).action == ClipboardAction::Cut,
            final(self).wf(),
    {
        self.clipboard = paths;
        self.action = ClipboardAction::Cut;
    }

    /// Starts a paste: refused with "Clipboard is empty" when there is
    /// nothing to paste, else a session for every clipboard entry.
    pub fn begin_paste(&self) -> (r: Result<PasteSession, String>)
        ensures
            r is Err <==> self.clipboard@.len() == 0,
            r matches Err(e) ==> e@ == "Clipboard is empty"@,
            r matches Ok(s) ==> {
                &&& views(s.sources@) == views(self.clipboard@)
                &&& s.handled == 0
                &&& s.success_count == 0
                &&& s.errors@.len() == 0
            },
    {
        if self.clipboard.len() == 0 {
            return Err(String::from_str("Clipboard is empty"));
        }
        let sources = self.clipboard.clone();
        assert(views(sources@) =~= views(self.clipboard@));
        Ok(PasteSession { sources, handled: 0, success_count: 0, errors: Vec::new() })
    }

    /// How a clipboard entry is transferred: copied (recursively for a
    /// directory) after a copy, moved otherwise.
    pub fn transfer_kind(&self, src_is_dir: bool) -> (k: TransferKind)
        ensures
            k == transfer_for(self.action, src_is_dir),
    {
        if self.action == ClipboardAction::Copy {
            if src_is_dir { TransferKind::CopyDir } else { TransferKind::CopyFile }
        } else {
            TransferKind::Move
        }
    }

    /// Ends a paste. A cut whose every entry was moved empties the clipboard;
    /// the result is "Paste successful" when no entry failed, else the
    /// failure messages joined by line breaks.
    pub fn finish_paste(&mut self, session: PasteSession) -> (r: Result<String, String>)
        ensures
            paste_clears(*old(self), session) ==> {
                &&& final(self).clipboard@.len() == 0
                &&& final(self).action == ClipboardAction::NoAction
            },
            !paste_clears(*old(self), session) ==> *final(self) == *old(self),
            old(self).wf() ==> final(self).wf(),
            r is Ok <==> session.errors@.len() == 0,
            r matches Ok(msg) ==> msg@ == "Paste successful"@,
            r matches Err(msg) ==> msg@ == joined(views(session.errors@), seq!['\n']),
    {
        if self.action == ClipboardAction::Cut && session.success_count == self.clipboard.len() {
            self.clipboard.clear();
            self.action = ClipboardAction::NoAction;
        }
        if session.errors.len() == 0 {
            Ok(String::from_str("Paste successful"))
        } else {
            let mut sep = String::new();
            push_char(&mut sep, '\n');
            assert(sep@ == seq!['\n']);
            Err(join_with(&session.errors, sep.as_str()))
        }
    }
}

impl Default for FileManager {
    fn default() -> (m: FileManager)
        ensures
            m.clipboard@ == Seq::<String>::empty(),
            m.action == ClipboardAction::NoAction,
    {
        FileManager::new()
    }
}

impl PasteSession {
    pub open spec fn wf(&self) -> bool {
        &&& self.handled <= self.sources@.len()
        &&& self.success_count <= self.handled
    }

    /// Passes over the sources without a file name and hands out the next
    /// one that has one, with its file name, stem and extension; `None`
    /// once every source is handled.
    pub fn next_item(&mut self) -> (r: Option<PasteItem>)
        requires
            old(self).wf(),
        ensures
            final(self).wf(),
            final(self).sources@ == old(self).sources@,
            final(self).success_count == old(self).success_count,
            final(self).errors@ == old(self).errors@,
            final(self).handled == next_named(views(old(self).sources@), old(self).handled as int),
            r is Some <==> final(self).handled < final(self).sources@.len(),
            r matches Some(it) ==> {
                let src = final(self).sources@[final(self).handled as int]@;
                &&& it.source@ == src
                &&& file_name_of(src) == Some(it.file_name@)
                &&& it.stem@ == or_empty(file_stem_of(src))
                &&& it.ext@ == or_empty(extension_of(src))
            },
    {
        let ghost names = views(self.sources@);
        while self.handled < self.sources.len()
            invariant
                self.wf(),
                self.sources@ == old(self).sources@,
                self.success_count == old(self).success_count,
                self.errors@ == old(self).errors@,
                names == views(self.sources@),
                next_named(names, self.handled as int) == next_named(names, old(self).handled as int),
            decreases self.sources@.len() - self.handled,
        {
            let src = self.sources[self.handled].as_str();
            match path_file_name(src) {
                Some(file_name) => {
                    let stem = text_or_empty(path_file_stem(src));
                    let ext = text_or_empty(path_extension(src));
                    return Some(PasteItem { source: self.sources[self.handled].clone(), file_name, stem, ext });
                },
                None => {
                    self.handled = self.handled + 1;
                },
            }
        }
        None
    }

    /// Counts the current entry as transferred.
    pub fn succeed(&mut self)
        requires
            old(self).wf(),
            old(self).handled < old(self).sources@.len(),
        ensures
            final(self).wf(),
            final(self).handled == old(self).handled + 1,
            final(self).sources@ == old(self).sources@,
            final(self).success_count == old(self).success_count + 1,
            final(self).errors@ == old(self).errors@,
    {
        let n = self.sources.len();
        assert(self.handled < n);
        self.handled = self.handled + 1;
        self.success_count = self.success_count + 1;
    }

    /// Records that the current entry failed with `error`, as
    /// "Failed <entry as {:?}>: <error>".
    pub fn fail(&mut self, error: &str)
        requires
            old(self).wf(),
            old(self).handled < old(self).sources@.len(),
        ensures
            final(self).wf(),
            final(self).handled == old(self).handled + 1,
            final(self).sources@ == old(self).sources@,
            final(self).success_count == old(self).success_count,
            views(final(self).errors@) == views(old(self).errors@).push(
                failure_message(debug_text_of(old(self).sources@[old(self).handled as int]@), error@),
            ),
    {
        let n = self.sources.len();
        assert(self.handled < n);
        let src_debug = path_debug_text(self.sources[self.handled].as_str());
        let mut msg = String::new();
        push_str(&mut msg, "Failed ");
        proof { reveal_strlit("Failed "); }
        push_str(&mut msg, src_debug.as_str());
        push_char(&mut msg, ':');
        push_char(&mut msg, ' ');
        push_str(&mut msg, error);
        assert(msg@ == failure_message(src_debug@, error@));
        self.errors.push(msg);
        assert(views(self.errors@) == views(old(self).errors@).push(msg@));
        self.handled = self.handled + 1;
    }
}

/// Sources are handled in clipboard order, each once: the next one handed
/// out is at or after the current position, every source passed over has
/// no file name, and the one handed out has one.
pub proof fn lemma_next_named(sources: Seq<Seq<char>>, from: int)
    requires
        0 <= from <= sources.len(),
    ensures
        from <= next_named(sources, from) <= sources.len(),
        forall|k: int| from <= k < next_named(sources, from) ==> file_name_of(#[trigger] sources[k]) is None,
        next_named(sources, from) < sources.len() ==> file_name_of(sources[next_named(sources, from)]) is Some,
    decreases sources.len() - from,
{
    if from < sources.len() && file_name_of(sources[from]) is None {
        lemma_next_named(sources, from + 1);
    }
}

proof fn lemma_numbered_injective(base: Seq<char>, suffix: Seq<char>, i: nat, j: nat)
    requires
        numbered(base, i) + suffix == numbered(base, j) + suffix,
    ensures
        i == j,
{
    let x = numbered(base, i) + suffix;
    let y = numbered(base, j) + suffix;
    let lo: int = base.len() as int + 2;
    assert(x.len() == y.len());
    assert(decimal(i).len() == decimal(j).len());
    assert(x.subrange(lo, lo + decimal(i).len() as int) == decimal(i));
    assert(y.subrange(lo, lo + decimal(j).len() as int) == decimal(j));
    lemma_decimal_injective(i, j);
}

/// Distinct attempts propose distinct folder names, so probing for a free
/// name never retries a name it already found taken.
pub proof fn lemma_folder_candidates_distinct(name: Seq<char>, i: nat, j: nat)
    requires
        i != j,
    ensures
        folder_candidate(name, i) != folder_candidate(name, j),
{
    lemma_decimal_len(i);
    lemma_decimal_len(j);
    if i > 0 && j > 0 && folder_candidate(name, i) == folder_candidate(name, j) {
        assert(numbered(name, i) + Seq::<char>::empty() == numbered(name, i));
        assert(numbered(name, j) + Seq::<char>::empty() == numbered(name, j));
        lemma_numbered_injective(name, Seq::<char>::empty(), i, j);
    }
}

/// Distinct attempts propose distinct names for a pasted entry whose file
/// name is its stem, possibly followed by a dot and its extension.
pub proof fn lemma_paste_candidates_distinct(file_name: Seq<char>, stem: Seq<char>, ext: Seq<char>, i: nat, j: nat)
    requires
        i != j,
        file_name == stem || file_name == stem + seq!['.'] + ext,
    ensures
        paste_candidate(file_name, stem, ext, i) != paste_candidate(file_name, stem, ext, j),
{
    lemma_decimal_len(i);
    lemma_decimal_len(j);
    let suffix = if ext.len() == 0 { Seq::<char>::empty() } else { seq!['.'] + ext };
    if i > 0 && j > 0 {
        if paste_candidate(file_name, stem, ext, i) == paste_candidate(file_name, stem, ext, j) {
            assert(paste_candidate(file_name, stem, ext, i) == numbered(stem, i) + suffix);
            assert(paste_candidate(file_name, stem, ext, j) == numbered(stem, j) + suffix);
            lemma_numbered_injective(stem, suffix, i, j);
        }
    } else {
        let k = if i == 0 { j } else { i };
        let c = paste_candidate(file_name, stem, ext, k);
        assert(c[stem.len() as int] == ' ');
        if file_name == stem {
            assert(c.len() > file_name.len());
        } else {
            assert(file_name[stem.len() as int] == '.');
        }
    }
}

/// A paste after a copy never empties the clipboard, so the same entries
/// can be pasted again.
pub proof fn lemma_copy_paste_keeps_clipboard(m: FileManager, session: PasteSession)
    requires
        m.action == ClipboardAction::Copy,
    ensures
        !paste_clears(m, session),
{
}

/// The name a folder created in a directory starts from.
pub open spec fn default_folder_name() -> Seq<char> {
    seq!['N', 'e', 'w', ' ', 'F', 'o', 'l', 'd', 'e', 'r']
}

/// "New Folder".
pub fn new_folder_name() -> (r: String)
    ensures
        r@ == default_folder_name(),
{
    let r = String::from_str("New Folder");
    proof { reveal_strlit("New Folder"); }
    r
}

/// A rename onto a name that is already taken is refused with
/// "Name already exists"; otherwise it may go ahead.
pub fn rename_check(target_exists: bool) -> (r: Result<(), String>)
    ensures
        r is Err <==> target_exists,
        r matches Err(e) ==> e@ == "Name already exists"@,
{
    if target_exists {
        Err(String::from_str("Name already exists"))
    } else {
        Ok(())
    }
}

/// Appends ` (n)` to `s`.
fn push_number_suffix(s: &mut String, n: u64)
    ensures
        final(s)@ == numbered(old(s)@, n as nat),
{
    push_char(s, ' ');
    push_char(s, '(');
    push_decimal(s, n);
    push_char(s, ')');
    assert(final(s)@ == numbered(old(s)@, n as nat));
}

/// The name a pasted entry is tried under at attempt `counter` (see `paste_candidate`).
pub fn paste_candidate_name(file_name: &str, stem: &str, ext: &str, counter: u64) -> (r: String)
    ensures
        r@ == paste_candidate(file_name@, stem@, ext@, counter as nat),
{
    let mut r = String::new();
    if counter == 0 {
        push_str(&mut r, file_name);
    } else {
        push_str(&mut r, stem);
        push_number_suffix(&mut r, counter);
        let e = chars_of(ext);
        if e.len() > 0 {
            push_char(&mut r, '.');
            push_str(&mut r, ext);
        }
    }
    r
}

/// The name a new folder is tried under at attempt `counter` (see `folder_candidate`).
pub fn folder_candidate_name(name: &str, counter: u64) -> (r: String)
    ensures
        r@ == folder_candidate(name@, counter as nat),
{
    let mut r = String::new();
    push_str(&mut r, name);
    if counter > 0 {
        push_number_suffix(&mut r, counter);
    }
    r
}

} // verus!
