//! The order of a directory listing: directories first, then files, each
//! group by file name.
use vstd::prelude::*;
use crate::sort::{SortKey, key_run, merge_sort, sorted};
use crate::text::{chars_le, chars_le_exec, chars_of, lemma_chars_le_total, lemma_chars_le_transitive};

verus! {

/// One entry of a directory listing.
#[derive(Clone, Debug)]
pub struct Entry {
    pub path: String,
    pub name: String,
    pub is_dir: bool,
}

/// Directories before files; within each group, file names in order.
pub open spec fn entry_le(a: Entry, b: Entry) -> bool {
    (a.is_dir && !b.is_dir) || (a.is_dir == b.is_dir && chars_le(a.name@, b.name@))
}

impl SortKey for Entry {
    open spec fn key_le(self, other: Self) -> bool {
        entry_le(self, other)
    }

    proof fn lemma_key_le_total(a: Self, b: Self) {
        lemma_chars_le_total(a.name@, b.name@);
    }

    proof fn lemma_key_le_transitive(a: Self, b: Self, c: Self) {
        if a.is_dir == b.is_dir && b.is_dir == c.is_dir {
            lemma_chars_le_transitive(a.name@, b.name@, c.name@);
        }
    }

    fn le(&self, other: &Self) -> (r: bool) {
        if self.is_dir != other.is_dir {
            self.is_dir
        } else {
            let a = chars_of(self.name.as_str());
            let b = chars_of(other.name.as_str());
            chars_le_exec(&a, &b)
        }
    }
}

impl Entry {
    pub fn new(path: String, name: String, is_dir: bool) -> (e: Entry)
        ensures
            e.path == path,
            e.name == name,
            e.is_dir == is_dir,
    {
        Entry { path, name, is_dir }
    }
}

/// In a listing in display order every directory comes before every file.
pub proof fn lemma_directories_first(entries: Seq<Entry>, i: int, j: int)
    requires
        sorted(entries),
        0 <= i < j < entries.len(),
        entries[j].is_dir,
    ensures
        entries[i].is_dir,
{
    assert(entries[i].key_le(entries[j]));
}

/// In a listing in display order, entries of the same kind come by name.
pub proof fn lemma_names_in_order(entries: Seq<Entry>, i: int, j: int)
    requires
        sorted(entries),
        0 <= i < j < entries.len(),
        entries[i].is_dir == entries[j].is_dir,
    ensures
        chars_le(entries[i].name@, entries[j].name@),
{
    assert(entries[i].key_le(entries[j]));
}

/// The listing in display order: a permutation of `entries` with every
/// directory before every file and names in order within each group;
/// entries of the same kind and name keep their listing order.
pub fn sort_entries(entries: Vec<Entry>) -> (r: Vec<Entry>)
    ensures
        sorted(r@),
        r@.to_multiset() == entries@.to_multiset(),
        forall|x: Entry| #[trigger] key_run(r@, x) == key_run(entries@, x),
{
    merge_sort(entries)
}

} // verus!
