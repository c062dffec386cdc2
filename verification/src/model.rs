//! The directory graph a walk runs over.
//!
//! The platform's view of the tree arrives as plain values: every reachable
//! directory is listed once, keyed by a small index that stands for its
//! canonical path, and each directory entry says what the platform's metadata
//! calls it. A symlink to a directory carries the index of its resolved
//! target, so a link back into an ancestor shows up as an index already on
//! the descent path — the shape a live loop takes. Identities are the
//! platform's stable keys (inode numbers); two hard links to one file carry
//! the same identity under different names.

use vstd::prelude::*;

verus! {

/// What a directory entry is, as metadata and link resolution report it.
#[derive(Debug, Clone, Copy, PartialEq, Eq)]
pub enum EntryKind {
    /// A regular file and its allocated size on storage.
    File { identity: u64, size: u64 },
    /// A subdirectory; `dir_id` indexes the snapshot's directory table.
    Dir { dir_id: usize },
    /// A symlink whose resolved target is a file: the target's identity and
    /// allocated size.
    SymlinkFile { identity: u64, size: u64 },
    /// A symlink whose resolved target is a directory inside the scan root's
    /// canonical subtree: the target's index in the directory table.
    SymlinkDir { dir_id: usize },
    /// A symlink whose resolved target is a directory outside the scan
    /// root's canonical subtree: not descended, counted as zero, so trees
    /// disjoint from the requested root are never double-counted.
    SymlinkOutside,
    /// A symlink that could not be resolved.
    SymlinkBroken,
    /// An entry whose metadata could not be read (permissions, or a race
    /// with deletion): recovered as a zero-size leaf, never an abort.
    Unreadable,
}

/// One directory entry: its name, its absolute path, and what it is.
pub struct EntryMeta {
    pub name: String,
    pub path: String,
    pub kind: EntryKind,
}

/// One reachable directory: its identity and its listing. A directory that
/// could not be listed is given an empty listing.
pub struct DirNode {
    pub identity: u64,
    pub entries: Vec<EntryMeta>,
}

/// Everything a scan visits: the directory table and the root entry.
pub struct FsSnapshot {
    pub dirs: Vec<DirNode>,
    pub root: EntryMeta,
}

/// Every directory index the kind mentions stays inside the table.
pub open spec fn kind_wf(k: EntryKind, n_dirs: int) -> bool {
    match k {
        EntryKind::Dir { dir_id } => dir_id < n_dirs,
        EntryKind::SymlinkDir { dir_id } => dir_id < n_dirs,
        _ => true,
    }
}

impl FsSnapshot {
    /// Every directory index in the snapshot stays inside the table.
    pub open spec fn wf(self) -> bool {
        &&& forall|d: int, i: int|
            0 <= d < self.dirs@.len() && 0 <= i < self.dirs@[d].entries@.len() ==> kind_wf(
                (#[trigger] self.dirs@[d].entries@[i]).kind,
                self.dirs@.len() as int,
            )
        &&& kind_wf(self.root.kind, self.dirs@.len() as int)
    }
}

/// Check that every directory index in the snapshot stays inside the table.
pub fn snapshot_wf_check(snap: &FsSnapshot) -> (b: bool)
    ensures
        b == snap.wf(),
{
    let n = snap.dirs.len();
    if !kind_wf_check(&snap.root.kind, n) {
        return false;
    }
    let mut d: usize = 0;
    while d < snap.dirs.len()
        invariant
            d <= snap.dirs@.len(),
            n == snap.dirs@.len(),
            kind_wf(snap.root.kind, n as int),
            forall|d2: int, i: int|
                0 <= d2 < d && 0 <= i < snap.dirs@[d2].entries@.len() ==> kind_wf(
                    (#[trigger] snap.dirs@[d2].entries@[i]).kind,
                    n as int,
                ),
        decreases snap.dirs@.len() - d,
    {
        let entries = &snap.dirs[d].entries;
        let mut i: usize = 0;
        while i < entries.len()
            invariant
                i <= entries@.len(),
                n == snap.dirs@.len(),
                d < snap.dirs@.len(),
                entries@ == snap.dirs@[d as int].entries@,
                forall|j: int|
                    0 <= j < i ==> kind_wf((#[trigger] entries@[j]).kind, n as int),
            decreases entries@.len() - i,
        {
            if !kind_wf_check(&entries[i].kind, n) {
                return false;
            }
            i = i + 1;
        }
        d = d + 1;
    }
    true
}

/// Check one kind's directory index against the table's length.
fn kind_wf_check(k: &EntryKind, n_dirs: usize) -> (b: bool)
    ensures
        b == kind_wf(*k, n_dirs as int),
{
    match k {
        EntryKind::Dir { dir_id } => *dir_id < n_dirs,
        EntryKind::SymlinkDir { dir_id } => *dir_id < n_dirs,
        _ => true,
    }
}

} // verus!
