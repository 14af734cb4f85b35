//! The folder tree of the side panel: drives at the top, sub-folders
//! loaded on demand and kept in case-insensitive name order.
use vstd::prelude::*;
use crate::listing::Entry;
use crate::paths::{path_eq, path_starts_with, path_within, same_path};
use crate::sort::{SortKey, key_run, merge_sort, reversed, sorted};
use crate::text::{chars_le, chars_le_exec, chars_of, lemma_chars_le_total, lemma_chars_le_transitive};

verus! {

/// A folder in the tree. `children` is `None` until the folder is opened.
pub struct FileTreeItem {
    pub path: String,
    pub name: String,
    pub children: Option<Vec<FileTreeItem>>,
}

/// The lower-case form of `s`, as `str::to_lowercase` gives it.
pub uninterp spec fn lowercase_of(s: Seq<char>) -> Seq<char>;

/// `str::to_lowercase` from std. The result is named (`lowercase_of`): it is
/// the full Unicode lower-case mapping of the argument and nothing else.
#[verifier::external_body]
fn to_lowercase(s: &str) -> (r: String)
    ensures
        r@ == lowercase_of(s@),
{
    s.to_lowercase()
}

/// Folder names compared case-insensitively.
pub open spec fn item_le(a: FileTreeItem, b: FileTreeItem) -> bool {
    chars_le(lowercase_of(a.name@), lowercase_of(b.name@))
}

impl SortKey for FileTreeItem {
    open spec fn key_le(self, other: Self) -> bool {
        item_le(self, other)
    }

    proof fn lemma_key_le_total(a: Self, b: Self) {
        lemma_chars_le_total(lowercase_of(a.name@), lowercase_of(b.name@));
    }

    proof fn lemma_key_le_transitive(a: Self, b: Self, c: Self) {
        lemma_chars_le_transitive(lowercase_of(a.name@), lowercase_of(b.name@), lowercase_of(c.name@));
    }

    fn le(&self, other: &Self) -> (r: bool) {
        let a = to_lowercase(self.name.as_str());
        let b = to_lowercase(other.name.as_str());
        let ca = chars_of(a.as_str());
        let cb = chars_of(b.as_str());
        chars_le_exec(&ca, &cb)
    }
}

/// A folder not yet opened.
pub open spec fn leaf(path: String, name: String) -> FileTreeItem {
    FileTreeItem { path, name, children: None }
}

/// The tree items for the directories of a listing, in listing order.
pub open spec fn folder_items(listing: Seq<Entry>) -> Seq<FileTreeItem>
    decreases listing.len(),
{
    if listing.len() == 0 {
        Seq::empty()
    } else {
        let rest = folder_items(listing.drop_last());
        let e = listing.last();
        if e.is_dir { rest.push(leaf(e.path, e.name)) } else { rest }
    }
}

/// The folder items of a listing are exactly its directories: every
/// directory of the listing gives an item with its path and name, not yet
/// opened, and every item is one of them.
pub proof fn lemma_folder_items_are_the_directories(listing: Seq<Entry>)
    ensures
        forall|i: int| 0 <= i < listing.len() && (#[trigger] listing[i]).is_dir
            ==> folder_items(listing).contains(leaf(listing[i].path, listing[i].name)),
        forall|x: FileTreeItem| folder_items(listing).contains(x)
            ==> exists|i: int| 0 <= i < listing.len() && (#[trigger] listing[i]).is_dir
                && x == leaf(listing[i].path, listing[i].name),
    decreases listing.len(),
{
    if listing.len() > 0 {
        let init = listing.drop_last();
        let n = listing.len() - 1;
        lemma_folder_items_are_the_directories(init);
        let rest = folder_items(init);
        let all = folder_items(listing);
        let e = listing.last();
        assert forall|i: int| 0 <= i < n implies #[trigger] init[i] == listing[i] by {}
        if e.is_dir {
            assert(all == rest.push(leaf(e.path, e.name)));
        } else {
            assert(all == rest);
        }
        assert forall|i: int| 0 <= i < listing.len() && (#[trigger] listing[i]).is_dir
            implies all.contains(leaf(listing[i].path, listing[i].name)) by {
            if i < n {
                assert(init[i] == listing[i]);
                assert(rest.contains(leaf(init[i].path, init[i].name)));
                let k = choose|k: int| 0 <= k < rest.len() && rest[k] == leaf(init[i].path, init[i].name);
                assert(all[k] == rest[k]);
            } else {
                assert(all[rest.len() as int] == leaf(e.path, e.name));
            }
        }
        assert forall|x: FileTreeItem| all.contains(x)
            implies exists|i: int| 0 <= i < listing.len() && (#[trigger] listing[i]).is_dir
                && x == leaf(listing[i].path, listing[i].name) by {
            let k = choose|k: int| 0 <= k < all.len() && all[k] == x;
            if k < rest.len() {
                assert(rest[k] == all[k]);
                assert(rest.contains(x));
                let i = choose|i: int| 0 <= i < init.len() && (#[trigger] init[i]).is_dir
                    && x == leaf(init[i].path, init[i].name);
                assert(init[i] == listing[i]);
            } else {
                assert(listing[n] == e);
            }
        }
    }
}

/// Whether an item opens by itself because the last navigation went to a
/// folder strictly inside it (`within`: the navigated path starts with the
/// item's path, component by component; the two must differ as paths).
pub open spec fn opens_toward(last_nav: Option<Seq<char>>, item_path: Seq<char>, within: bool) -> bool {
    match last_nav {
        Some(nav) => within && !same_path(nav, item_path),
        None => false,
    }
}

/// Whether an item opens by itself toward the last navigation: it is a
/// strict ancestor of the navigated path.
pub open spec fn opens_toward_path(last_nav: Option<Seq<char>>, item_path: Seq<char>) -> bool {
    match last_nav {
        Some(nav) => path_within(nav, item_path) && !same_path(nav, item_path),
        None => false,
    }
}

impl FileTreeItem {
    pub fn new(path: String, name: String) -> (item: FileTreeItem)
        ensures
            item == leaf(path, name),
    {
        FileTreeItem { path, name, children: None }
    }

    /// Fills the children of an opened folder from its listing: its
    /// sub-directories, sorted by lower-cased name; names equal once
    /// lower-cased keep their listing order.
    pub fn load_children(&mut self, listing: Vec<Entry>)
        ensures
            final(self).path == old(self).path,
            final(self).name == old(self).name,
            final(self).children matches Some(c) && sorted(c@)
                && c@.to_multiset() == folder_items(listing@).to_multiset()
                && forall|x: FileTreeItem| #[trigger] key_run(c@, x) == key_run(folder_items(listing@), x)
                && (forall|i: int| 0 <= i < listing@.len() && (#[trigger] listing@[i]).is_dir
                    ==> c@.contains(leaf(listing@[i].path, listing@[i].name)))
                && (forall|k: int| 0 <= k < c@.len() ==> exists|i: int| 0 <= i < listing@.len()
                    && (#[trigger] listing@[i]).is_dir && #[trigger] c@[k] == leaf(listing@[i].path, listing@[i].name)),
    {
        let mut items: Vec<FileTreeItem> = Vec::new();
        let ghost orig = listing@;
        let mut rest = reversed(listing);
        while rest.len() > 0
            invariant
                rest@.len() <= orig.len(),
                forall|j: int| 0 <= j < rest@.len() ==> #[trigger] rest@[j] == orig[orig.len() - 1 - j],
                items@ == folder_items(orig.take(orig.len() - rest@.len())),
            decreases rest@.len(),
        {
            let ghost k = orig.len() - rest@.len();
            let ghost before = rest@;
            let e = rest.pop().unwrap();
            proof {
                assert(e == before[before.len() - 1]);
                assert(e == orig[k]);
                assert(orig.take(k + 1).drop_last() == orig.take(k));
                assert(orig.take(k + 1).last() == orig[k]);
                assert forall|j: int| 0 <= j < rest@.len() implies #[trigger] rest@[j] == orig[orig.len() - 1 - j] by {
                    assert(rest@[j] == before[j]);
                }
            }
            if e.is_dir {
                items.push(FileTreeItem::new(e.path, e.name));
            }
        }
        assert(orig.take(orig.len() as int) == orig);
        let c = merge_sort(items);
        proof {
            broadcast use vstd::seq_lib::group_to_multiset_ensures;
            lemma_folder_items_are_the_directories(orig);
            let f = folder_items(orig);
            assert forall|i: int| 0 <= i < orig.len() && (#[trigger] orig[i]).is_dir
                implies c@.contains(leaf(orig[i].path, orig[i].name)) by {
                let x = leaf(orig[i].path, orig[i].name);
                assert(f.contains(x));
                assert(f.to_multiset().count(x) > 0);
            }
            assert forall|k: int| 0 <= k < c@.len() implies exists|i: int| 0 <= i < orig.len()
                && (#[trigger] orig[i]).is_dir && #[trigger] c@[k] == leaf(orig[i].path, orig[i].name) by {
                let x = c@[k];
                assert(c@.contains(x));
                assert(c@.to_multiset().count(x) > 0);
                assert(f.contains(x));
            }
        }
        self.children = Some(c);
    }

    /// Whether this item is the folder `dir` (the same path, compared
    /// component by component).
    pub fn is_at(&self, dir: &String) -> (b: bool)
        ensures
            b == same_path(self.path@, dir@),
    {
        path_eq(self.path.as_str(), dir.as_str())
    }

    /// Whether this item opens by itself toward `last_nav` (see `opens_toward_path`).
    pub fn opens_toward_nav(&self, last_nav: &Option<String>) -> (b: bool)
        ensures
            b == opens_toward_path(
                match last_nav {
                    Some(n) => Some(n@),
                    None => None,
                },
                self.path@,
            ),
    {
        match last_nav {
            Some(nav) => {
                let within = path_starts_with(nav.as_str(), self.path.as_str());
                opens_toward_exec(last_nav, &self.path, within)
            },
            None => false,
        }
    }
}

/// Decides `opens_toward`.
pub fn opens_toward_exec(last_nav: &Option<String>, item_path: &String, within: bool) -> (b: bool)
    ensures
        b == opens_toward(
            match last_nav {
                Some(n) => Some(n@),
                None => None,
            },
            item_path@,
            within,
        ),
{
    match last_nav {
        Some(nav) => within && !path_eq(nav.as_str(), item_path.as_str()),
        None => false,
    }
}

/// Forgets the children of every drive, so each is listed afresh when opened.
pub fn invalidate(drives: &mut Vec<FileTreeItem>)
    ensures
        final(drives)@.len() == old(drives)@.len(),
        forall|i: int| 0 <= i < final(drives)@.len() ==> #[trigger] final(drives)@[i] == leaf(old(drives)@[i].path, old(drives)@[i].name),
{
    let mut i: usize = 0;
    while i < drives.len()
        invariant
            i <= drives@.len(),
            drives@.len() == old(drives)@.len(),
            forall|k: int| 0 <= k < i ==> #[trigger] drives@[k] == leaf(old(drives)@[k].path, old(drives)@[k].name),
            forall|k: int| i <= k < drives@.len() ==> #[trigger] drives@[k] == old(drives)@[k],
        decreases drives@.len() - i,
    {
        drives[i].children = None;
        i = i + 1;
    }
}

} // verus!
