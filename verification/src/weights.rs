//! Counting budgets for a walk.
//!
//! The scan's two cumulative counters live in fixed-width integers, so every
//! increment needs a bound in hand. The bound is the weight still pending: a
//! weight per entry, summed over the listings of every directory that has not
//! been counted yet. Entering a directory counts its identity and so releases
//! its whole listing from the pending weight — each listing is walked at most
//! once — which also bounds the recursion itself: the number of uncounted
//! directories shrinks at every descent.

use vstd::prelude::*;
use crate::model::{DirNode, EntryKind, EntryMeta, FsSnapshot};

verus! {

broadcast use vstd::std_specs::vec::group_vec_axioms, vstd::seq::group_seq_axioms;

/// Bytes an entry can add to the byte counter: a file's size, else nothing.
pub open spec fn size_weight(k: EntryKind) -> int {
    match k {
        EntryKind::File { identity: _, size } => size as int,
        EntryKind::SymlinkFile { identity: _, size } => size as int,
        _ => 0,
    }
}

/// The byte weight as a function value.
pub open spec fn size_w() -> spec_fn(EntryKind) -> int {
    |k: EntryKind| size_weight(k)
}

/// The entry-count weight as a function value: every entry counts once.
pub open spec fn cnt_w() -> spec_fn(EntryKind) -> int {
    |k: EntryKind| 1int
}

/// Total weight of a listing.
pub open spec fn entries_w(es: Seq<EntryMeta>, f: spec_fn(EntryKind) -> int) -> int
    decreases es.len(),
{
    if es.len() == 0 {
        0
    } else {
        entries_w(es.drop_last(), f) + f(es.last().kind)
    }
}

/// Weight still pending among the first `n` directories: the listings of
/// those whose identity has not been counted.
pub open spec fn pending_w(
    dirs: Seq<DirNode>,
    visited: Set<u64>,
    n: int,
    f: spec_fn(EntryKind) -> int,
) -> int
    decreases n,
{
    if n <= 0 {
        0
    } else {
        pending_w(dirs, visited, n - 1, f) + if !visited.contains(dirs[n - 1].identity) {
            entries_w(dirs[n - 1].entries@, f)
        } else {
            0
        }
    }
}

/// Entries the counter can still be asked to count.
pub open spec fn cnt_pending(snap: FsSnapshot, visited: Set<u64>) -> int {
    pending_w(snap.dirs@, visited, snap.dirs@.len() as int, cnt_w())
}

/// Bytes the byte counter can still be asked to add.
pub open spec fn size_pending(snap: FsSnapshot, visited: Set<u64>) -> int {
    pending_w(snap.dirs@, visited, snap.dirs@.len() as int, size_w())
}

/// How many of the first `n` directories have an uncounted identity.
pub open spec fn unvisited_dirs(dirs: Seq<DirNode>, visited: Set<u64>, n: int) -> int
    decreases n,
{
    if n <= 0 {
        0
    } else {
        unvisited_dirs(dirs, visited, n - 1) + if !visited.contains(dirs[n - 1].identity) {
            1int
        } else {
            0int
        }
    }
}

/// The bytes an entry can add, as a machine value.
fn size_weight_of(k: &EntryKind) -> (w: u64)
    ensures
        w == size_weight(*k),
{
    match k {
        EntryKind::File { identity: _, size } => *size,
        EntryKind::SymlinkFile { identity: _, size } => *size,
        _ => 0,
    }
}

/// Check that a whole scan of the snapshot fits the two cumulative
/// counters: the total entry count and the total of the root's bytes plus
/// every listed file's bytes each fit the counter width. A `true` answer
/// establishes what `scan_directory_streaming` asks of its snapshot.
pub fn scan_fits_counters(snap: &FsSnapshot) -> (b: bool)
    ensures
        b ==> cnt_pending(*snap, Set::empty()) <= u64::MAX,
        b ==> size_weight(snap.root.kind) + size_pending(*snap, Set::empty()) <= u64::MAX,
{
    let ghost v0 = Set::<u64>::empty();
    let mut cnt_total: u64 = 0;
    let mut size_total: u64 = size_weight_of(&snap.root.kind);
    let mut d: usize = 0;
    while d < snap.dirs.len()
        invariant
            d <= snap.dirs@.len(),
            v0 == Set::<u64>::empty(),
            cnt_total == pending_w(snap.dirs@, v0, d as int, cnt_w()),
            size_total == size_weight(snap.root.kind) + pending_w(snap.dirs@, v0, d as int, size_w()),
        decreases snap.dirs@.len() - d,
    {
        let entries = &snap.dirs[d].entries;
        let mut i: usize = 0;
        let mut dir_cnt: u64 = 0;
        let mut dir_size: u64 = 0;
        while i < entries.len()
            invariant
                i <= entries@.len(),
                d < snap.dirs@.len(),
                entries@ == snap.dirs@[d as int].entries@,
                dir_cnt == entries_w(entries@.take(i as int), cnt_w()),
                dir_size == entries_w(entries@.take(i as int), size_w()),
            decreases entries@.len() - i,
        {
            proof {
                lemma_entries_w_take_step(entries@, cnt_w(), i as int);
                lemma_entries_w_take_step(entries@, size_w(), i as int);
                assert(cnt_w()(entries@[i as int].kind) == 1);
                assert(size_w()(entries@[i as int].kind) == size_weight(entries@[i as int].kind));
            }
            let w = size_weight_of(&entries[i].kind);
            dir_cnt = match dir_cnt.checked_add(1) {
                Some(x) => x,
                None => {
                    return false;
                },
            };
            dir_size = match dir_size.checked_add(w) {
                Some(x) => x,
                None => {
                    return false;
                },
            };
            i = i + 1;
        }
        proof {
            assert(entries@.take(entries@.len() as int) =~= entries@);
        }
        cnt_total = match cnt_total.checked_add(dir_cnt) {
            Some(x) => x,
            None => {
                return false;
            },
        };
        size_total = match size_total.checked_add(dir_size) {
            Some(x) => x,
            None => {
                return false;
            },
        };
        proof {
            assert(!v0.contains(snap.dirs@[d as int].identity));
            assert(pending_w(snap.dirs@, v0, d + 1, cnt_w()) == pending_w(
                snap.dirs@,
                v0,
                d as int,
                cnt_w(),
            ) + entries_w(snap.dirs@[d as int].entries@, cnt_w()));
            assert(pending_w(snap.dirs@, v0, d + 1, size_w()) == pending_w(
                snap.dirs@,
                v0,
                d as int,
                size_w(),
            ) + entries_w(snap.dirs@[d as int].entries@, size_w()));
        }
        d = d + 1;
    }
    true
}

/// A weight that is nowhere negative.
pub open spec fn w_nonneg(f: spec_fn(EntryKind) -> int) -> bool {
    forall|k: EntryKind| #[trigger] f(k) >= 0
}

/// Both weights used by a walk are nowhere negative.
pub proof fn lemma_walk_weights_nonneg()
    ensures
        w_nonneg(size_w()),
        w_nonneg(cnt_w()),
{
    assert forall|k: EntryKind| #[trigger] size_w()(k) >= 0 by {
        assert(size_w()(k) == size_weight(k));
    }
    assert forall|k: EntryKind| #[trigger] cnt_w()(k) >= 0 by {
        assert(cnt_w()(k) == 1);
    }
}

/// A listing's weight under a nonnegative weight is nonnegative.
pub proof fn lemma_entries_w_nonneg(es: Seq<EntryMeta>, f: spec_fn(EntryKind) -> int)
    requires
        w_nonneg(f),
    ensures
        entries_w(es, f) >= 0,
    decreases es.len(),
{
    if es.len() > 0 {
        lemma_entries_w_nonneg(es.drop_last(), f);
    }
}

/// One more entry of a prefix adds that entry's weight.
pub proof fn lemma_entries_w_take_step(es: Seq<EntryMeta>, f: spec_fn(EntryKind) -> int, i: int)
    requires
        0 <= i < es.len(),
    ensures
        entries_w(es.take(i + 1), f) == entries_w(es.take(i), f) + f(es[i].kind),
{
    assert(es.take(i + 1).drop_last() =~= es.take(i));
    assert(es.take(i + 1).last() == es[i]);
}

/// The whole listing is its own longest prefix.
pub proof fn lemma_entries_w_take_all(es: Seq<EntryMeta>, f: spec_fn(EntryKind) -> int)
    ensures
        entries_w(es.take(es.len() as int), f) == entries_w(es, f),
{
    assert(es.take(es.len() as int) =~= es);
}

/// No prefix outweighs the whole listing.
pub proof fn lemma_entries_w_take_le(es: Seq<EntryMeta>, f: spec_fn(EntryKind) -> int, j: int)
    requires
        w_nonneg(f),
        0 <= j <= es.len(),
    ensures
        entries_w(es.take(j), f) <= entries_w(es, f),
    decreases es.len() - j,
{
    if j == es.len() {
        lemma_entries_w_take_all(es, f);
    } else {
        lemma_entries_w_take_step(es, f, j);
        lemma_entries_w_take_le(es, f, j + 1);
    }
}

/// Pending weight is nonnegative.
pub proof fn lemma_pending_w_nonneg(
    dirs: Seq<DirNode>,
    visited: Set<u64>,
    n: int,
    f: spec_fn(EntryKind) -> int,
)
    requires
        w_nonneg(f),
    ensures
        pending_w(dirs, visited, n, f) >= 0,
    decreases n,
{
    if n > 0 {
        lemma_pending_w_nonneg(dirs, visited, n - 1, f);
        lemma_entries_w_nonneg(dirs[n - 1].entries@, f);
    }
}

/// Counting more identities can only lower the pending weight.
pub proof fn lemma_pending_w_mono(
    dirs: Seq<DirNode>,
    v1: Set<u64>,
    v2: Set<u64>,
    n: int,
    f: spec_fn(EntryKind) -> int,
)
    requires
        w_nonneg(f),
        v1.subset_of(v2),
    ensures
        pending_w(dirs, v2, n, f) <= pending_w(dirs, v1, n, f),
    decreases n,
{
    if n > 0 {
        lemma_pending_w_mono(dirs, v1, v2, n - 1, f);
        lemma_entries_w_nonneg(dirs[n - 1].entries@, f);
    }
}

/// Counting a directory's identity releases at least its listing's weight
/// from the pending weight.
pub proof fn lemma_pending_w_insert(
    dirs: Seq<DirNode>,
    visited: Set<u64>,
    n: int,
    f: spec_fn(EntryKind) -> int,
    d: int,
)
    requires
        w_nonneg(f),
        0 <= d < n,
        !visited.contains(dirs[d].identity),
    ensures
        pending_w(dirs, visited.insert(dirs[d].identity), n, f) <= pending_w(dirs, visited, n, f)
            - entries_w(dirs[d].entries@, f),
    decreases n,
{
    let v2 = visited.insert(dirs[d].identity);
    if d == n - 1 {
        lemma_pending_w_mono(dirs, visited, v2, n - 1, f);
    } else {
        lemma_pending_w_insert(dirs, visited, n - 1, f, d);
        lemma_entries_w_nonneg(dirs[n - 1].entries@, f);
    }
}

/// The count of uncounted directories is nonnegative.
pub proof fn lemma_unvisited_nonneg(dirs: Seq<DirNode>, visited: Set<u64>, n: int)
    ensures
        unvisited_dirs(dirs, visited, n) >= 0,
    decreases n,
{
    if n > 0 {
        lemma_unvisited_nonneg(dirs, visited, n - 1);
    }
}

/// Counting more identities can only lower the count of uncounted
/// directories.
pub proof fn lemma_unvisited_mono(dirs: Seq<DirNode>, v1: Set<u64>, v2: Set<u64>, n: int)
    requires
        v1.subset_of(v2),
    ensures
        unvisited_dirs(dirs, v2, n) <= unvisited_dirs(dirs, v1, n),
    decreases n,
{
    if n > 0 {
        lemma_unvisited_mono(dirs, v1, v2, n - 1);
    }
}

/// Counting an uncounted directory's identity strictly lowers the count of
/// uncounted directories.
pub proof fn lemma_unvisited_insert(dirs: Seq<DirNode>, visited: Set<u64>, n: int, d: int)
    requires
        0 <= d < n,
        !visited.contains(dirs[d].identity),
    ensures
        unvisited_dirs(dirs, visited.insert(dirs[d].identity), n) <= unvisited_dirs(
            dirs,
            visited,
            n,
        ) - 1,
    decreases n,
{
    let v2 = visited.insert(dirs[d].identity);
    if d == n - 1 {
        lemma_unvisited_mono(dirs, visited, v2, n - 1);
    } else {
        lemma_unvisited_insert(dirs, visited, n - 1, d);
    }
}

} // verus!
