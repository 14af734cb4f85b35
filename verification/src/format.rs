//! Sizes and kinds as the browser shows them.
use vstd::prelude::*;
use crate::text::{decimal, push_char, push_decimal, push_str};

verus! {

pub open spec fn kb_suffix() -> Seq<char> {
    seq![' ', 'K', 'B']
}

pub open spec fn mb_suffix() -> Seq<char> {
    seq![' ', 'M', 'B']
}

pub const MIB: u64 = 1048576;

/// The size shown for a selection in the context menu: whole mebibytes above
/// one mebibyte, whole kibibytes otherwise.
pub open spec fn menu_size_text(total: nat) -> Seq<char> {
    if total > 1048576 {
        decimal(total / 1048576) + mb_suffix()
    } else {
        decimal(total / 1024) + kb_suffix()
    }
}

/// The context-menu size is a whole number of units that fits the total:
/// above one mebibyte the number `n` shown before " MB" is the count of whole
/// mebibytes (`n` mebibytes are at most the total, `n + 1` exceed it); up to
/// one mebibyte the same holds of kibibytes before " KB".
pub proof fn lemma_menu_size_whole_units(total: nat)
    ensures
        total > 1048576 ==> exists|n: nat| #[trigger] decimal(n) + mb_suffix() == menu_size_text(total)
            && n * 1048576 <= total < n * 1048576 + 1048576,
        total <= 1048576 ==> exists|n: nat| #[trigger] decimal(n) + kb_suffix() == menu_size_text(total)
            && n * 1024 <= total < n * 1024 + 1024,
{
    if total > 1048576 {
        let n: nat = total / 1048576;
        assert(n * 1048576 <= total < n * 1048576 + 1048576);
        assert(decimal(n) + mb_suffix() == menu_size_text(total));
    } else {
        let n: nat = total / 1024;
        assert(n * 1024 <= total < n * 1024 + 1024);
        assert(decimal(n) + kb_suffix() == menu_size_text(total));
    }
}

/// The size column of the list view: whole kibibytes, or whole mebibytes
/// once the kibibytes pass 1024.
pub open spec fn column_size_text(len: nat) -> Seq<char> {
    let kb = len / 1024;
    if kb > 1024 {
        decimal(kb / 1024) + mb_suffix()
    } else {
        decimal(kb) + kb_suffix()
    }
}

/// The size column shows a whole number of units that fits the length:
/// once the length passes 1024 whole kibibytes, the number before " MB" is
/// the count of whole mebibytes; otherwise the number before " KB" is the
/// count of whole kibibytes.
pub proof fn lemma_column_size_whole_units(len: nat)
    ensures
        len / 1024 > 1024 ==> exists|n: nat| #[trigger] decimal(n) + mb_suffix() == column_size_text(len)
            && n * 1048576 <= len < n * 1048576 + 1048576,
        len / 1024 <= 1024 ==> exists|n: nat| #[trigger] decimal(n) + kb_suffix() == column_size_text(len)
            && n * 1024 <= len < n * 1024 + 1024,
{
    let kb: nat = len / 1024;
    if kb > 1024 {
        let n: nat = kb / 1024;
        assert(n * 1048576 <= len < n * 1048576 + 1048576) by (nonlinear_arith)
            requires kb == len / 1024, n == kb / 1024;
        assert(decimal(n) + mb_suffix() == column_size_text(len));
    } else {
        assert(kb * 1024 <= len < kb * 1024 + 1024);
        assert(decimal(kb) + kb_suffix() == column_size_text(len));
    }
}

/// The upper-case form of `s`, as `str::to_uppercase` gives it.
pub uninterp spec fn uppercase_of(s: Seq<char>) -> Seq<char>;

/// `str::to_uppercase` from std. The result is named (`uppercase_of`): it is
/// the full Unicode upper-case mapping of the argument and nothing else.
#[verifier::external_body]
fn to_uppercase(s: &str) -> (r: String)
    ensures
        r@ == uppercase_of(s@),
{
    s.to_uppercase()
}

/// The type column: "Folder" for a directory, else the upper-cased
/// extension followed by " File".
pub open spec fn type_text(is_dir: bool, ext: Seq<char>) -> Seq<char> {
    if is_dir {
        seq!['F', 'o', 'l', 'd', 'e', 'r']
    } else {
        uppercase_of(ext) + seq![' ', 'F', 'i', 'l', 'e']
    }
}

/// The unit the status bar shows a total in.
#[derive(Clone, Copy, PartialEq, Eq, Structural, Debug)]
pub enum SizeScale {
    /// Gibibytes with two decimals.
    Gigabytes,
    /// Mebibytes with two decimals.
    Megabytes,
    /// Whole kibibytes: the number to show.
    Kilobytes(u64),
}

pub open spec fn status_scale(total: nat) -> SizeScale {
    if total > 1073741824 {
        SizeScale::Gigabytes
    } else if total > 1048576 {
        SizeScale::Megabytes
    } else {
        SizeScale::Kilobytes((total / 1024) as u64)
    }
}

/// What the file system says of one selected path.
#[derive(Clone, Copy, PartialEq, Eq, Structural, Debug)]
pub struct ItemMeta {
    pub is_dir: bool,
    /// The length from the path's metadata, when it could be read.
    pub size: Option<u64>,
}

/// The counts of the status bar.
#[derive(Clone, Copy, PartialEq, Eq, Structural, Debug)]
pub struct SelectionStats {
    pub folders: usize,
    pub files: usize,
    /// The total length of the files whose metadata could be read.
    pub total: u64,
}

pub open spec fn size_or_zero(m: ItemMeta) -> nat {
    match m.size {
        Some(n) => n as nat,
        None => 0,
    }
}

/// The summed lengths of the files (directories count nothing).
pub open spec fn files_total(items: Seq<ItemMeta>) -> nat
    decreases items.len(),
{
    if items.len() == 0 {
        0
    } else {
        files_total(items.drop_last()) + if items.last().is_dir { 0 } else { size_or_zero(items.last()) }
    }
}

/// The summed lengths of every path, directories included.
pub open spec fn all_total(items: Seq<ItemMeta>) -> nat
    decreases items.len(),
{
    if items.len() == 0 {
        0
    } else {
        all_total(items.drop_last()) + size_or_zero(items.last())
    }
}

pub open spec fn folder_count(items: Seq<ItemMeta>) -> nat
    decreases items.len(),
{
    if items.len() == 0 {
        0
    } else {
        folder_count(items.drop_last()) + if items.last().is_dir { 1nat } else { 0nat }
    }
}

proof fn lemma_totals_monotone(items: Seq<ItemMeta>, i: int)
    requires
        0 <= i <= items.len(),
    ensures
        files_total(items.take(i)) <= files_total(items),
        all_total(items.take(i)) <= all_total(items),
    decreases items.len() - i,
{
    if i < items.len() {
        lemma_totals_monotone(items, i + 1);
        assert(items.take(i + 1).drop_last() == items.take(i));
    } else {
        assert(items.take(i) == items);
    }
}

/// The counts and totals of a selection add up over its parts: those of
/// `a + b` are those of `a` plus those of `b`. One folder counts one and
/// adds no length to the file total; one file counts no folder and adds its
/// length when it could be read; the total over every path adds the length
/// of folders too.
pub proof fn lemma_totals_add_up(a: Seq<ItemMeta>, b: Seq<ItemMeta>, m: ItemMeta)
    ensures
        folder_count(a + b) == folder_count(a) + folder_count(b),
        files_total(a + b) == files_total(a) + files_total(b),
        all_total(a + b) == all_total(a) + all_total(b),
        folder_count(seq![m]) == (if m.is_dir { 1nat } else { 0nat }),
        files_total(seq![m]) == (if m.is_dir { 0nat } else { size_or_zero(m) }),
        all_total(seq![m]) == size_or_zero(m),
        folder_count(a) <= a.len(),
    decreases b.len(),
{
    let e = Seq::<ItemMeta>::empty();
    assert(seq![m].drop_last() == e);
    assert(seq![m].last() == m);
    assert(folder_count(e) == 0 && files_total(e) == 0 && all_total(e) == 0);
    if b.len() == 0 {
        assert(a + b == a);
    } else {
        lemma_totals_add_up(a, b.drop_last(), m);
        assert((a + b).drop_last() == a + b.drop_last());
        assert((a + b).last() == b.last());
    }
    lemma_folder_count_bound(a);
}

proof fn lemma_folder_count_bound(a: Seq<ItemMeta>)
    ensures
        folder_count(a) <= a.len(),
    decreases a.len(),
{
    if a.len() > 0 {
        lemma_folder_count_bound(a.drop_last());
    }
}

/// The status bar's unit: gibibytes above one gibibyte, mebibytes above one
/// mebibyte up to one gibibyte, and otherwise a whole number `k` of
/// kibibytes with `k` kibibytes at most the total and `k + 1` above it.
pub proof fn lemma_status_scale_cases(total: nat)
    requires
        total <= u64::MAX,
    ensures
        (status_scale(total) == SizeScale::Gigabytes) <==> total > 1073741824,
        (status_scale(total) == SizeScale::Megabytes) <==> (1048576 < total <= 1073741824),
        total <= 1048576 ==> exists|k: u64| status_scale(total) == SizeScale::Kilobytes(k)
            && k * 1024 <= total < k * 1024 + 1024,
{
    if total <= 1048576 {
        let k: u64 = (total / 1024) as u64;
        assert(k * 1024 <= total < k * 1024 + 1024);
        assert(status_scale(total) == SizeScale::Kilobytes(k));
    }
}

/// The context-menu size text (see `menu_size_text`).
pub fn menu_size_label(total: u64) -> (r: String)
    ensures
        r@ == menu_size_text(total as nat),
{
    let mut r = String::new();
    if total > MIB {
        push_decimal(&mut r, total / MIB);
        push_str(&mut r, " MB");
        proof { reveal_strlit(" MB"); }
    } else {
        push_decimal(&mut r, total / 1024);
        push_str(&mut r, " KB");
        proof { reveal_strlit(" KB"); }
    }
    r
}

/// The size column text (see `column_size_text`).
pub fn column_size_label(len: u64) -> (r: String)
    ensures
        r@ == column_size_text(len as nat),
{
    let mut r = String::new();
    let kb = len / 1024;
    if kb > 1024 {
        push_decimal(&mut r, kb / 1024);
        push_str(&mut r, " MB");
        proof { reveal_strlit(" MB"); }
    } else {
        push_decimal(&mut r, kb);
        push_str(&mut r, " KB");
        proof { reveal_strlit(" KB"); }
    }
    r
}

/// The type column text (see `type_text`).
pub fn type_label(is_dir: bool, ext: &str) -> (r: String)
    ensures
        r@ == type_text(is_dir, ext@),
{
    let mut r = String::new();
    if is_dir {
        push_str(&mut r, "Folder");
        proof { reveal_strlit("Folder"); }
    } else {
        let up = to_uppercase(ext);
        push_str(&mut r, up.as_str());
        push_str(&mut r, " File");
        proof { reveal_strlit(" File"); }
    }
    r
}

/// The unit the status bar uses for `total` (see `status_scale`).
pub fn status_size_scale(total: u64) -> (s: SizeScale)
    ensures
        s == status_scale(total as nat),
{
    if total > 1073741824 {
        SizeScale::Gigabytes
    } else if total > MIB {
        SizeScale::Megabytes
    } else {
        SizeScale::Kilobytes(total / 1024)
    }
}

/// The status-bar counts of a selection: its folders, its files and the
/// total length of its files; `None` when that total does not fit a `u64`.
pub fn selection_stats(items: &Vec<ItemMeta>) -> (r: Option<SelectionStats>)
    ensures
        r is None <==> files_total(items@) > u64::MAX,
        r matches Some(st) ==> {
            &&& st.folders == folder_count(items@)
            &&& st.folders + st.files == items@.len()
            &&& st.total == files_total(items@)
        },
{
    let mut folders: usize = 0;
    let mut files: usize = 0;
    let mut total: u64 = 0;
    let mut i: usize = 0;
    while i < items.len()
        invariant
            i <= items@.len(),
            folders == folder_count(items@.take(i as int)),
            folders + files == i,
            total == files_total(items@.take(i as int)),
        decreases items@.len() - i,
    {
        proof {
            assert(items@.take(i + 1).drop_last() == items@.take(i as int));
            assert(items@.take(i + 1).last() == items@[i as int]);
        }
        if items[i].is_dir {
            folders = folders + 1;
        } else {
            files = files + 1;
            match items[i].size {
                Some(n) => {
                    match total.checked_add(n) {
                        Some(t) => {
                            total = t;
                        },
                        None => {
                            proof { lemma_totals_monotone(items@, i + 1); }
                            return None;
                        },
                    }
                },
                None => {},
            }
        }
        i = i + 1;
    }
    assert(items@.take(items@.len() as int) == items@);
    Some(SelectionStats { folders, files, total })
}

/// The total length of every selected path, for the context menu; `None`
/// when it does not fit a `u64`.
pub fn menu_total(items: &Vec<ItemMeta>) -> (r: Option<u64>)
    ensures
        r is None <==> all_total(items@) > u64::MAX,
        r matches Some(t) ==> t == all_total(items@),
{
    let mut total: u64 = 0;
    let mut i: usize = 0;
    while i < items.len()
        invariant
            i <= items@.len(),
            total == all_total(items@.take(i as int)),
        decreases items@.len() - i,
    {
        proof {
            assert(items@.take(i + 1).drop_last() == items@.take(i as int));
            assert(items@.take(i + 1).last() == items@[i as int]);
        }
        match items[i].size {
            Some(n) => {
                match total.checked_add(n) {
                    Some(t) => {
                        total = t;
                    },
                    None => {
                        proof { lemma_totals_monotone(items@, i + 1); }
                        return None;
                    },
                }
            },
            None => {},
        }
        i = i + 1;
    }
    assert(items@.take(items@.len() as int) == items@);
    Some(total)
}

} // verus!
