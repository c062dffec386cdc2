//! The recursive walk.
//!
//! `scan_directory_recursive` visits one entry and returns its finished node:
//! files contribute their allocated size, directories the recursive sum of
//! their children, and anything the guard refuses — a live symlink loop, an
//! already counted identity — degrades to a zero-size leaf instead of a
//! second descent or an abort. Every finished node is counted once, its bytes
//! are accounted once, and a one-node summary of it is handed to the emitter,
//! so the delivered batches carry each visited entry exactly once, in
//! completion order.

use vstd::prelude::*;
use crate::emitter::{batches_extend, BatchEmitter};
use crate::guard::{CycleGuard, EnterOutcome};
use crate::model::{kind_wf, EntryKind, EntryMeta, FsSnapshot};
use crate::node::{
    completion_order, completion_order_upto, is_summary_of, sum_sizes, FileNode,
};
use crate::weights::{
    cnt_pending, cnt_w, entries_w, lemma_entries_w_nonneg,
    lemma_entries_w_take_all, lemma_entries_w_take_le, lemma_entries_w_take_step,
    lemma_pending_w_insert, lemma_pending_w_mono, lemma_pending_w_nonneg, lemma_unvisited_insert,
    lemma_unvisited_mono, lemma_unvisited_nonneg, lemma_walk_weights_nonneg, size_pending,
    size_w, size_weight, unvisited_dirs,
};

verus! {

broadcast use vstd::std_specs::vec::group_vec_axioms, vstd::seq::group_seq_axioms;

/// A zero-size leaf: the placeholder left where a branch was cut.
pub open spec fn zero_leaf(r: FileNode) -> bool {
    &&& r.size == 0
    &&& !r.is_directory
    &&& r.children is None
}

/// What a walk of `e` returns, given the guard state it started from: the
/// entry's own name and path on the node, a zero-size placeholder wherever
/// the guard cut the branch, the allocated size for a first-seen file, and a
/// directory node with one child per listed entry for a first-seen directory.
pub open spec fn entry_outcome(
    snap: FsSnapshot,
    e: EntryMeta,
    pre_anc: Seq<usize>,
    pre_vis: Set<u64>,
    r: FileNode,
) -> bool {
    &&& r.name@ == e.name@
    &&& r.path@ == e.path@
    &&& match e.kind {
        EntryKind::Unreadable => zero_leaf(r),
        EntryKind::SymlinkBroken => zero_leaf(r),
        EntryKind::SymlinkOutside => zero_leaf(r),
        EntryKind::File { identity, size } => if pre_vis.contains(identity) {
            zero_leaf(r)
        } else {
            !r.is_directory && r.children is None && r.size == size
        },
        EntryKind::SymlinkFile { identity, size } => if pre_vis.contains(identity) {
            zero_leaf(r)
        } else {
            !r.is_directory && r.children is None && r.size == size
        },
        EntryKind::Dir { dir_id } => dir_outcome(snap, dir_id as int, pre_anc, pre_vis, r),
        EntryKind::SymlinkDir { dir_id } => dir_outcome(snap, dir_id as int, pre_anc, pre_vis, r),
    }
}

/// What a walk returns at a directory boundary: a placeholder for a loop or
/// duplicate, else a directory node with one child per listed entry.
pub open spec fn dir_outcome(
    snap: FsSnapshot,
    dir_id: int,
    pre_anc: Seq<usize>,
    pre_vis: Set<u64>,
    r: FileNode,
) -> bool {
    if pre_anc.contains(dir_id as usize) || pre_vis.contains(snap.dirs@[dir_id].identity) {
        zero_leaf(r)
    } else {
        &&& r.is_directory
        &&& (r.children matches Some(c) && c@.len() == snap.dirs@[dir_id].entries@.len())
    }
}

/// `post` is `pre` followed by one-node summaries of `order`, in order.
pub open spec fn stream_extends(
    pre: Seq<FileNode>,
    post: Seq<FileNode>,
    order: Seq<FileNode>,
) -> bool {
    &&& post.len() == pre.len() + order.len()
    &&& forall|i: int| 0 <= i < pre.len() ==> post[i] == pre[i]
    &&& forall|i: int|
        0 <= i < order.len() ==> is_summary_of(#[trigger] post[pre.len() + i], order[i])
}

/// Appending one summary extends the stream by its node.
pub proof fn lemma_stream_push(pre: Seq<FileNode>, b: FileNode, n: FileNode)
    requires
        is_summary_of(b, n),
    ensures
        stream_extends(pre, pre.push(b), seq![n]),
{
    assert(pre.push(b)[pre.len() as int] == b);
}

/// Extending in two steps extends by the concatenated order.
pub proof fn lemma_stream_extends_trans(
    a: Seq<FileNode>,
    b: Seq<FileNode>,
    c: Seq<FileNode>,
    o1: Seq<FileNode>,
    o2: Seq<FileNode>,
)
    requires
        stream_extends(a, b, o1),
        stream_extends(b, c, o2),
    ensures
        stream_extends(a, c, o1 + o2),
{
    assert forall|i: int| 0 <= i < a.len() implies c[i] == a[i] by {
        assert(b[i] == a[i]);
    }
    assert forall|i: int| 0 <= i < (o1 + o2).len() implies is_summary_of(
        #[trigger] c[a.len() + i],
        (o1 + o2)[i],
    ) by {
        if i < o1.len() {
            assert(c[a.len() + i] == b[a.len() + i]);
            assert(is_summary_of(b[a.len() + i], o1[i]));
        } else {
            let j = i - o1.len();
            assert(is_summary_of(c[b.len() + j], o2[j]));
            assert(b.len() + j == a.len() + i);
        }
    }
}

/// The first `i` trees of a sequence do not care what stands after them.
pub proof fn lemma_completion_order_upto_push(s: Seq<FileNode>, x: FileNode, i: int)
    requires
        0 <= i <= s.len(),
    ensures
        completion_order_upto(s.push(x), i) == completion_order_upto(s, i),
    decreases i,
{
    if i > 0 {
        lemma_completion_order_upto_push(s, x, i - 1);
        assert(s.push(x)[i - 1] == s[i - 1]);
    }
}

/// A hard link to an already counted file comes back as a zero-size
/// placeholder: the file's size stands in some ancestor's aggregate exactly
/// once, from its first visit.
pub proof fn lemma_duplicate_identity_adds_nothing(
    snap: FsSnapshot,
    e: EntryMeta,
    pre_anc: Seq<usize>,
    pre_vis: Set<u64>,
    r: FileNode,
    identity: u64,
    size: u64,
)
    requires
        entry_outcome(snap, e, pre_anc, pre_vis, r),
        e.kind == (EntryKind::File { identity, size }) || e.kind == (EntryKind::SymlinkFile {
            identity,
            size,
        }),
        pre_vis.contains(identity),
    ensures
        r.size == 0,
{
}

/// A symlink back into the active descent path comes back as a zero-size
/// leaf, never a descent: the loop ends there and inflates nothing.
pub proof fn lemma_ancestor_loop_adds_nothing(
    snap: FsSnapshot,
    e: EntryMeta,
    pre_anc: Seq<usize>,
    pre_vis: Set<u64>,
    r: FileNode,
    dir_id: usize,
)
    requires
        entry_outcome(snap, e, pre_anc, pre_vis, r),
        e.kind == (EntryKind::Dir { dir_id }) || e.kind == (EntryKind::SymlinkDir { dir_id }),
        pre_anc.contains(dir_id),
    ensures
        r.size == 0,
        r.children is None,
{
}

/// Count one completed leaf and hand its summary to the emitter.
fn emit_leaf(name: &String, path: &String, size: u64, em: &mut BatchEmitter) -> (r: FileNode)
    requires
        old(em).counter < u64::MAX,
    ensures
        r.name@ == name@,
        r.path@ == path@,
        r.size == size,
        !r.is_directory,
        r.children is None,
        final(em).counter == old(em).counter + 1,
        final(em).scanned_size == old(em).scanned_size,
        stream_extends(old(em).stream(), final(em).stream(), seq![r]),
        batches_extend(old(em).delivered@, final(em).delivered@),
{
    let r = FileNode {
        name: name.clone(),
        size,
        path: path.clone(),
        children: None,
        is_directory: false,
    };
    em.increment_counter();
    let buffered = FileNode {
        name: name.clone(),
        size,
        path: path.clone(),
        children: None,
        is_directory: false,
    };
    proof {
        assert(is_summary_of(buffered, r));
    }
    let ghost pre = em.stream();
    let ghost pre_delivered = em.delivered@;
    if em.add_to_buffer(buffered) {
        em.send_batch();
    }
    proof {
        lemma_stream_push(pre, buffered, r);
        assert(batches_extend(pre_delivered, em.delivered@));
    }
    r
}

/// Walk one entry and return its finished node. Never fails outward: loops,
/// duplicates and unreadable entries come back as zero-size leaves. The
/// emitter leaves with the entry's whole subtree counted once, its bytes
/// accounted once, and one summary per finished node appended to the stream,
/// with any batches sent along the way non-terminal.
pub fn scan_directory_recursive(
    snap: &FsSnapshot,
    entry: &EntryMeta,
    guard: &mut CycleGuard,
    em: &mut BatchEmitter,
) -> (r: FileNode)
    requires
        snap.wf(),
        kind_wf(entry.kind, snap.dirs@.len() as int),
        old(guard).wf(),
        old(em).counter + 1 + cnt_pending(*snap, old(guard).visited()) <= u64::MAX,
        old(em).scanned_size + size_weight(entry.kind) + size_pending(*snap, old(guard).visited())
            <= u64::MAX,
    ensures
        final(guard).wf(),
        final(guard).ancestors() == old(guard).ancestors(),
        old(guard).visited().subset_of(final(guard).visited()),
        entry_outcome(*snap, *entry, old(guard).ancestors(), old(guard).visited(), r),
        r.shape_wf(),
        r.well_sized(),
        final(em).scanned_size == old(em).scanned_size + r.size,
        final(em).counter == old(em).counter + completion_order(r).len(),
        stream_extends(old(em).stream(), final(em).stream(), completion_order(r)),
        batches_extend(old(em).delivered@, final(em).delivered@),
        entry.kind matches EntryKind::File { identity, size }
            ==> final(guard).visited().contains(identity),
        entry.kind matches EntryKind::SymlinkFile { identity, size }
            ==> final(guard).visited().contains(identity),
        final(em).counter + cnt_pending(*snap, final(guard).visited()) <= old(em).counter + 1
            + cnt_pending(*snap, old(guard).visited()),
        final(em).scanned_size + size_pending(*snap, final(guard).visited()) <= old(
            em,
        ).scanned_size + size_weight(entry.kind) + size_pending(*snap, old(guard).visited()),
    decreases unvisited_dirs(snap.dirs@, old(guard).visited(), snap.dirs@.len() as int), 0int,
{
    proof {
        lemma_walk_weights_nonneg();
        lemma_pending_w_nonneg(snap.dirs@, guard.visited(), snap.dirs@.len() as int, cnt_w());
        lemma_pending_w_nonneg(snap.dirs@, guard.visited(), snap.dirs@.len() as int, size_w());
    }
    match entry.kind {
        EntryKind::Unreadable | EntryKind::SymlinkBroken | EntryKind::SymlinkOutside => {
            let r = emit_leaf(&entry.name, &entry.path, 0, em);
            proof {
                assert(completion_order(r) =~= seq![r]);
            }
            r
        },
        EntryKind::File { identity, size } | EntryKind::SymlinkFile { identity, size } => {
            if guard.is_visited_inode(identity) {
                let r = emit_leaf(&entry.name, &entry.path, 0, em);
                proof {
                    assert(completion_order(r) =~= seq![r]);
                }
                r
            } else {
                guard.mark_visited_inode(identity);
                proof {
                    lemma_pending_w_mono(
                        snap.dirs@,
                        old(guard).visited(),
                        guard.visited(),
                        snap.dirs@.len() as int,
                        cnt_w(),
                    );
                    lemma_pending_w_mono(
                        snap.dirs@,
                        old(guard).visited(),
                        guard.visited(),
                        snap.dirs@.len() as int,
                        size_w(),
                    );
                }
                em.add_size(size);
                let r = emit_leaf(&entry.name, &entry.path, size, em);
                proof {
                    assert(completion_order(r) =~= seq![r]);
                }
                r
            }
        },
        EntryKind::Dir { dir_id } | EntryKind::SymlinkDir { dir_id } => {
            let identity = snap.dirs[dir_id].identity;
            let outcome = guard.enter(dir_id, identity);
            match outcome {
                EnterOutcome::AncestorLoop | EnterOutcome::AlreadyCounted => {
                    let r = emit_leaf(&entry.name, &entry.path, 0, em);
                    proof {
                        assert(completion_order(r) =~= seq![r]);
                    }
                    r
                },
                EnterOutcome::Descend => {
                    let ghost v0 = old(guard).visited();
                    let ghost v1 = guard.visited();
                    let ghost n = snap.dirs@.len() as int;
                    let ghost es = snap.dirs@[dir_id as int].entries@;
                    proof {
                        lemma_pending_w_insert(snap.dirs@, v0, n, cnt_w(), dir_id as int);
                        lemma_pending_w_insert(snap.dirs@, v0, n, size_w(), dir_id as int);
                        lemma_unvisited_insert(snap.dirs@, v0, n, dir_id as int);
                        lemma_unvisited_nonneg(snap.dirs@, v1, n);
                        lemma_entries_w_nonneg(es, cnt_w());
                        lemma_entries_w_nonneg(es, size_w());
                    }
                    let (children, total) = scan_dir_entries(snap, dir_id, guard, em);
                    guard.leave(dir_id);
                    let ghost v2 = guard.visited();
                    proof {
                        lemma_pending_w_nonneg(snap.dirs@, v2, n, cnt_w());
                        lemma_pending_w_nonneg(snap.dirs@, v2, n, size_w());
                    }
                    em.increment_counter();
                    let buffered = FileNode {
                        name: entry.name.clone(),
                        size: total,
                        path: entry.path.clone(),
                        children: Some(Vec::new()),
                        is_directory: true,
                    };
                    let r = FileNode {
                        name: entry.name.clone(),
                        size: total,
                        path: entry.path.clone(),
                        children: Some(children),
                        is_directory: true,
                    };
                    let ghost pre = em.stream();
                    let ghost pre_delivered = em.delivered@;
                    if em.add_to_buffer(buffered) {
                        em.send_batch();
                    }
                    proof {
                        let c = r.children.unwrap();
                        assert(is_summary_of(buffered, r));
                        lemma_stream_push(pre, buffered, r);
                        assert(completion_order(r) == completion_order_upto(c@, c@.len() as int).push(r));
                        lemma_stream_extends_trans(
                            old(em).stream(),
                            pre,
                            em.stream(),
                            completion_order_upto(c@, c@.len() as int),
                            seq![r],
                        );
                        assert(completion_order_upto(c@, c@.len() as int) + seq![r]
                            =~= completion_order(r));
                        assert(batches_extend(old(em).delivered@, em.delivered@)) by {
                            crate::emitter::lemma_batches_extend_trans(
                                old(em).delivered@,
                                pre_delivered,
                                em.delivered@,
                            );
                        }
                    }
                    r
                },
            }
        },
    }
}

/// Walk every entry of one directory's listing, left to right, and return
/// the finished children with the sum of their sizes. The caller has already
/// entered the directory: its identity is counted and it stands on the
/// descent path, so a link back to it from below is cut as a loop.
pub fn scan_dir_entries(
    snap: &FsSnapshot,
    dir_id: usize,
    guard: &mut CycleGuard,
    em: &mut BatchEmitter,
) -> (out: (Vec<FileNode>, u64))
    requires
        snap.wf(),
        dir_id < snap.dirs@.len(),
        old(guard).wf(),
        old(em).counter + entries_w(snap.dirs@[dir_id as int].entries@, cnt_w()) + cnt_pending(
            *snap,
            old(guard).visited(),
        ) <= u64::MAX,
        old(em).scanned_size + entries_w(snap.dirs@[dir_id as int].entries@, size_w())
            + size_pending(*snap, old(guard).visited()) <= u64::MAX,
    ensures
        final(guard).wf(),
        final(guard).ancestors() == old(guard).ancestors(),
        old(guard).visited().subset_of(final(guard).visited()),
        out.0@.len() == snap.dirs@[dir_id as int].entries@.len(),
        out.1 == sum_sizes(out.0@),
        forall|j: int|
            0 <= j < out.0@.len() ==> (#[trigger] out.0@[j]).shape_wf() && out.0@[j].well_sized(),
        final(em).scanned_size == old(em).scanned_size + sum_sizes(out.0@),
        final(em).counter == old(em).counter + completion_order_upto(
            out.0@,
            out.0@.len() as int,
        ).len(),
        stream_extends(
            old(em).stream(),
            final(em).stream(),
            completion_order_upto(out.0@, out.0@.len() as int),
        ),
        batches_extend(old(em).delivered@, final(em).delivered@),
        final(em).counter + cnt_pending(*snap, final(guard).visited()) <= old(em).counter
            + entries_w(snap.dirs@[dir_id as int].entries@, cnt_w()) + cnt_pending(
            *snap,
            old(guard).visited(),
        ),
        final(em).scanned_size + size_pending(*snap, final(guard).visited()) <= old(
            em,
        ).scanned_size + entries_w(snap.dirs@[dir_id as int].entries@, size_w()) + size_pending(
            *snap,
            old(guard).visited(),
        ),
    decreases unvisited_dirs(snap.dirs@, old(guard).visited(), snap.dirs@.len() as int), 1int,
{
    let ghost n = snap.dirs@.len() as int;
    let ghost v0 = old(guard).visited();
    let ghost es = snap.dirs@[dir_id as int].entries@;
    let entries = &snap.dirs[dir_id].entries;
    let mut children: Vec<FileNode> = Vec::new();
    let mut total: u64 = 0;
    let mut i: usize = 0;
    proof {
        assert(completion_order_upto(children@, 0).len() == 0);
    }
    while i < entries.len()
        invariant
            snap.wf(),
            dir_id < snap.dirs@.len(),
            n == snap.dirs@.len() as int,
            v0 == old(guard).visited(),
            es == snap.dirs@[dir_id as int].entries@,
            entries@ == es,
            i <= es.len(),
            children@.len() == i,
            guard.wf(),
            guard.ancestors() == old(guard).ancestors(),
            v0.subset_of(guard.visited()),
            total == sum_sizes(children@),
            forall|j: int|
                0 <= j < i ==> (#[trigger] children@[j]).shape_wf() && children@[j].well_sized(),
            em.scanned_size == old(em).scanned_size + sum_sizes(children@),
            em.counter == old(em).counter + completion_order_upto(children@, i as int).len(),
            stream_extends(
                old(em).stream(),
                em.stream(),
                completion_order_upto(children@, i as int),
            ),
            batches_extend(old(em).delivered@, em.delivered@),
            em.counter + cnt_pending(*snap, guard.visited()) <= old(em).counter + entries_w(
                es.take(i as int),
                cnt_w(),
            ) + cnt_pending(*snap, v0),
            em.scanned_size + size_pending(*snap, guard.visited()) <= old(em).scanned_size
                + entries_w(es.take(i as int), size_w()) + size_pending(*snap, v0),
            old(em).counter + entries_w(es, cnt_w()) + cnt_pending(*snap, v0) <= u64::MAX,
            old(em).scanned_size + entries_w(es, size_w()) + size_pending(*snap, v0) <= u64::MAX,
            unvisited_dirs(snap.dirs@, guard.visited(), n) <= unvisited_dirs(snap.dirs@, v0, n),
        decreases es.len() - i,
    {
        let ghost vi = guard.visited();
        let ghost pre_counter = em.counter;
        let ghost pre_size = em.scanned_size;
        let ghost pre_stream = em.stream();
        let ghost pre_delivered = em.delivered@;
        proof {
            lemma_walk_weights_nonneg();
            assert(kind_wf(es[i as int].kind, n)) by {
                assert(snap.dirs@[dir_id as int].entries@[i as int] == es[i as int]);
            }
            lemma_entries_w_take_step(es, cnt_w(), i as int);
            lemma_entries_w_take_step(es, size_w(), i as int);
            lemma_entries_w_take_le(es, cnt_w(), i as int + 1);
            lemma_entries_w_take_le(es, size_w(), i as int + 1);
            assert(cnt_w()(es[i as int].kind) == 1);
            assert(size_w()(es[i as int].kind) == size_weight(es[i as int].kind));
            lemma_unvisited_mono(snap.dirs@, v0, vi, n);
            lemma_unvisited_nonneg(snap.dirs@, vi, n);
        }
        let child = scan_directory_recursive(snap, &entries[i], guard, em);
        let csize = child.size;
        let ghost gchild = child;
        let ghost prev = children@;
        children.push(child);
        total = total + csize;
        i = i + 1;
        proof {
            let cs = children@;
            assert(cs.drop_last() =~= prev);
            assert(cs.last() == gchild);
            assert(sum_sizes(cs) == sum_sizes(prev) + gchild.size);
            // The completion order so far gains exactly the child's subtree.
            lemma_completion_order_upto_push(prev, gchild, i - 1);
            assert(completion_order_upto(cs, i as int) == completion_order_upto(
                cs,
                i - 1,
            ) + completion_order(cs[i - 1]));
            assert(completion_order_upto(cs, i - 1) == completion_order_upto(prev, i - 1)) by {
                assert(prev.push(gchild) =~= cs);
                lemma_completion_order_upto_push(prev, gchild, i - 1);
            }
            lemma_stream_extends_trans(
                old(em).stream(),
                pre_stream,
                em.stream(),
                completion_order_upto(prev, i - 1),
                completion_order(gchild),
            );
            crate::emitter::lemma_batches_extend_trans(
                old(em).delivered@,
                pre_delivered,
                em.delivered@,
            );
            lemma_unvisited_mono(snap.dirs@, vi, guard.visited(), n);
        }
    }
    proof {
        assert(es.take(es.len() as int) =~= es);
        lemma_walk_weights_nonneg();
        lemma_entries_w_take_all(es, cnt_w());
        lemma_entries_w_take_all(es, size_w());
    }
    (children, total)
}

} // verus!
