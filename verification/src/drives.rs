//! The drives at the top of the folder tree.
use vstd::prelude::*;
use crate::paths::{path_eq, same_path};
use crate::tree::FileTreeItem;
use crate::text::{push_char, push_str, trim_trailing, trim_trailing_exec};

verus! {

/// A mounted disk as the system reports it.
pub struct DiskInfo {
    pub name: String,
    pub mount: String,
}

pub open spec fn local_disk_label() -> Seq<char> {
    seq!['L', 'o', 'c', 'a', 'l', ' ', 'D', 'i', 's', 'k']
}

/// `name (mount)`, with "Local Disk" for an unnamed disk and the trailing
/// backslashes of the mount point left out.
pub open spec fn drive_label(name: Seq<char>, mount: Seq<char>) -> Seq<char> {
    (if name.len() == 0 { local_disk_label() } else { name }) + seq![' ', '('] + trim_trailing(mount, '\\')
        + seq![')']
}

/// Whether a row already listed has a mount point equal to `mount` as a path.
pub open spec fn mount_listed_in(rows: Seq<(Seq<char>, Seq<char>)>, mount: Seq<char>) -> bool {
    exists|k: int| 0 <= k < rows.len() && same_path(#[trigger] rows[k].0, mount)
}

/// The (path, label) of each drive item: one per mount point (compared as
/// paths), at its first occurrence, in list order.
pub open spec fn drive_rows(disks: Seq<DiskInfo>) -> Seq<(Seq<char>, Seq<char>)>
    decreases disks.len(),
{
    if disks.len() == 0 {
        Seq::empty()
    } else {
        let rest = drive_rows(disks.drop_last());
        let d = disks.last();
        if mount_listed_in(rest, d.mount@) {
            rest
        } else {
            rest.push((d.mount@, drive_label(d.name@, d.mount@)))
        }
    }
}

pub open spec fn rows_of(items: Seq<FileTreeItem>) -> Seq<(Seq<char>, Seq<char>)> {
    items.map_values(|it: FileTreeItem| (it.path@, it.name@))
}

fn mount_listed(items: &Vec<FileTreeItem>, mount: &String) -> (b: bool)
    ensures
        b == mount_listed_in(rows_of(items@), mount@),
{
    let mut i: usize = 0;
    while i < items.len()
        invariant
            i <= items@.len(),
            forall|k: int| 0 <= k < i ==> !same_path(#[trigger] rows_of(items@)[k].0, mount@),
        decreases items@.len() - i,
    {
        if path_eq(items[i].path.as_str(), mount.as_str()) {
            assert(rows_of(items@)[i as int].0 == items@[i as int].path@);
            return true;
        }
        i = i + 1;
    }
    false
}

/// No two drive items have mount points equal as paths: a later mount point
/// equal to an earlier one is left out.
pub proof fn lemma_drive_rows_distinct(disks: Seq<DiskInfo>)
    ensures
        forall|a: int, b: int| 0 <= a < b < drive_rows(disks).len() ==> !same_path(#[trigger] drive_rows(disks)[a].0, #[trigger] drive_rows(disks)[b].0),
    decreases disks.len(),
{
    if disks.len() > 0 {
        let init = disks.drop_last();
        lemma_drive_rows_distinct(init);
        let rest = drive_rows(init);
        assert forall|a: int, b: int| 0 <= a < b < drive_rows(disks).len() implies !same_path(#[trigger] drive_rows(disks)[a].0, #[trigger] drive_rows(disks)[b].0) by {
            assert(drive_rows(disks)[a] == rest[a]);
            if b < rest.len() {
                assert(drive_rows(disks)[b] == rest[b]);
            } else {
                assert(drive_rows(disks)[b].0 == disks.last().mount@);
            }
        }
    }
}

/// The row a disk is listed under: its mount point and its label.
pub open spec fn disk_row(d: DiskInfo) -> (Seq<char>, Seq<char>) {
    (d.mount@, drive_label(d.name@, d.mount@))
}

/// The drive list holds disks of the list and nothing else; a disk is
/// listed whenever no earlier disk has the same mount point as a path, and
/// is left out only when an earlier one has.
pub proof fn lemma_drive_rows_complete(disks: Seq<DiskInfo>)
    ensures
        forall|k: int| 0 <= k < drive_rows(disks).len() ==>
            exists|i: int| 0 <= i < disks.len() && #[trigger] drive_rows(disks)[k] == disk_row(#[trigger] disks[i]),
        forall|i: int| 0 <= i < disks.len()
            && (forall|j: int| 0 <= j < i ==> !same_path(#[trigger] disks[j].mount@, disks[i].mount@))
            ==> drive_rows(disks).contains(disk_row(#[trigger] disks[i])),
        forall|i: int| 0 <= i < disks.len() && !drive_rows(disks).contains(disk_row(#[trigger] disks[i]))
            ==> exists|j: int| 0 <= j < i && same_path(#[trigger] disks[j].mount@, disks[i].mount@),
    decreases disks.len(),
{
    if disks.len() > 0 {
        let init = disks.drop_last();
        let n = disks.len() - 1;
        lemma_drive_rows_complete(init);
        let rest = drive_rows(init);
        let rows = drive_rows(disks);
        let d = disks.last();
        assert(d == disks[n]);
        assert forall|k: int| 0 <= k < rest.len() implies #[trigger] rows[k] == rest[k] by {}
        assert forall|i: int| 0 <= i < n implies #[trigger] init[i] == disks[i] by {}
        // every row comes from a disk
        assert forall|k: int| 0 <= k < rows.len() implies
            exists|i: int| 0 <= i < disks.len() && #[trigger] rows[k] == disk_row(#[trigger] disks[i]) by {
            if k < rest.len() {
                let i = choose|i: int| 0 <= i < init.len() && #[trigger] rest[k] == disk_row(#[trigger] init[i]);
                assert(rows[k] == disk_row(disks[i]));
            } else {
                assert(rows[k] == disk_row(disks[n]));
            }
        }
        // a disk with no earlier equal mount point is listed
        assert forall|i: int| 0 <= i < disks.len()
            && (forall|j: int| 0 <= j < i ==> !same_path(#[trigger] disks[j].mount@, disks[i].mount@))
            implies rows.contains(disk_row(#[trigger] disks[i])) by {
            if i < n {
                assert forall|j: int| 0 <= j < i implies !same_path(#[trigger] init[j].mount@, init[i].mount@) by {
                    assert(init[j] == disks[j]);
                }
                assert(rest.contains(disk_row(init[i])));
                let k = choose|k: int| 0 <= k < rest.len() && rest[k] == disk_row(init[i]);
                assert(rows[k] == rest[k]);
            } else {
                if mount_listed_in(rest, d.mount@) {
                    let k = choose|k: int| 0 <= k < rest.len() && same_path(#[trigger] rest[k].0, d.mount@);
                    let j = choose|j: int| 0 <= j < init.len() && #[trigger] rest[k] == disk_row(#[trigger] init[j]);
                    assert(init[j] == disks[j]);
                    assert(same_path(disks[j].mount@, disks[i].mount@));
                    assert(false);
                }
                assert(rows == rest.push(disk_row(d)));
                assert(rows[rest.len() as int] == disk_row(disks[i]));
            }
        }
        // a disk left out has an earlier disk with the same mount point
        assert forall|i: int| 0 <= i < disks.len() && !rows.contains(disk_row(#[trigger] disks[i]))
            implies exists|j: int| 0 <= j < i && same_path(#[trigger] disks[j].mount@, disks[i].mount@) by {
            if i < n {
                if rest.contains(disk_row(init[i])) {
                    let k = choose|k: int| 0 <= k < rest.len() && rest[k] == disk_row(init[i]);
                    assert(rows[k] == rest[k]);
                    assert(false);
                }
                let j = choose|j: int| 0 <= j < i && same_path(#[trigger] init[j].mount@, init[i].mount@);
                assert(init[j] == disks[j]);
            } else {
                if !mount_listed_in(rest, d.mount@) {
                    assert(rows[rest.len() as int] == disk_row(disks[i]));
                    assert(false);
                }
                let k = choose|k: int| 0 <= k < rest.len() && same_path(#[trigger] rest[k].0, d.mount@);
                let j = choose|j: int| 0 <= j < init.len() && #[trigger] rest[k] == disk_row(#[trigger] init[j]);
                assert(init[j] == disks[j]);
                assert(same_path(disks[j].mount@, disks[i].mount@));
            }
        }
    }
}

/// The label of a drive item (see `drive_label`).
pub fn drive_label_exec(name: &String, mount: &String) -> (r: String)
    ensures
        r@ == drive_label(name@, mount@),
{
    let mut r = String::new();
    if name.as_str().unicode_len() == 0 {
        push_str(&mut r, "Local Disk");
        proof { reveal_strlit("Local Disk"); }
    } else {
        push_str(&mut r, name.as_str());
    }
    push_char(&mut r, ' ');
    push_char(&mut r, '(');
    let trimmed = trim_trailing_exec(mount.as_str(), '\\');
    push_str(&mut r, trimmed.as_str());
    push_char(&mut r, ')');
    r
}

/// The drive items for a disk list: one per distinct mount point, in the
/// order the mount points first appear, each labelled by `drive_label` and
/// not yet opened.
pub fn drive_items(disks: &Vec<DiskInfo>) -> (items: Vec<FileTreeItem>)
    ensures
        rows_of(items@) == drive_rows(disks@),
        forall|k: int| 0 <= k < items@.len() ==> (#[trigger] items@[k]).children is None,
{
    let mut items: Vec<FileTreeItem> = Vec::new();
    let mut i: usize = 0;
    while i < disks.len()
        invariant
            i <= disks@.len(),
            rows_of(items@) == drive_rows(disks@.take(i as int)),
            forall|k: int| 0 <= k < items@.len() ==> (#[trigger] items@[k]).children is None,
        decreases disks@.len() - i,
    {
        proof {
            let t = disks@.take(i + 1);
            assert(t.drop_last() == disks@.take(i as int));
            assert(t.last() == disks@[i as int]);
        }
        let seen = mount_listed(&items, &disks[i].mount);
        if !seen {
            let label = drive_label_exec(&disks[i].name, &disks[i].mount);
            let ghost before = items@;
            items.push(FileTreeItem::new(disks[i].mount.clone(), label));
            proof {
                assert(rows_of(items@) =~= rows_of(before).push((disks@[i as int].mount@, drive_label(disks@[i as int].name@, disks@[i as int].mount@))));
            }
        }
        i = i + 1;
    }
    assert(disks@.take(disks@.len() as int) == disks@);
    items
}

} // verus!
