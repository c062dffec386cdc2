//! One scan, start to finish.
//!
//! The session validates the root, classifies it, walks the tree, and drives
//! the emitter to the terminal batch. Rejecting a missing root is the only
//! failure the caller ever sees; everything after validation arrives through
//! the delivered batches, of which exactly the last is terminal: it carries
//! the completion flag, the final counters, the depth-limited root tree, and
//! — for a volume-root scan — the volume's capacity figures.

use vstd::prelude::*;
use crate::emitter::{concat_nodes, nonterminal, BatchEmitter, PartialScanResult};
use crate::guard::{CycleGuard, EnterOutcome};
use crate::limiter::{build_limited_depth_node, limited};
use crate::model::{EntryKind, FsSnapshot};
use crate::node::{completion_order_upto, FileNode};
use crate::volume::{
    chosen_disk, disk_matches, get_disk_info, is_root_directory, spec_is_root_directory,
    DiskRecord,
};
use crate::walker::{entry_outcome, scan_dir_entries, stream_extends};
use crate::weights::{
    cnt_pending, cnt_w, lemma_entries_w_nonneg, lemma_pending_w_insert, lemma_pending_w_nonneg,
    lemma_walk_weights_nonneg, size_pending, size_w, size_weight,
};

verus! {

broadcast use vstd::std_specs::vec::group_vec_axioms, vstd::seq::group_seq_axioms;

/// The finished tree shipped to the consumer is cut this many levels below
/// the root.
pub const MAX_DEPTH: usize = 100;

/// The one failure a caller sees: the scan root does not exist. Everything
/// else degrades locally and the scan runs on.
#[derive(Debug, Clone, Copy, PartialEq, Eq, Structural)]
pub enum ScanError {
    RootNotFound,
}

/// The entries a scan of `full` counts and delivers: every node below the
/// root, in completion order. The root itself is delivered once, as the tree
/// on the terminal batch, not as a streamed node.
pub open spec fn root_order(full: FileNode) -> Seq<FileNode> {
    match full.children {
        Some(c) => completion_order_upto(c@, c@.len() as int),
        None => Seq::empty(),
    }
}

/// What one scan delivers, witnessed by the fully expanded root tree `full`:
/// exactly one terminal batch, last; counters that match the tree; every
/// counted entry streamed exactly once, in completion order; the terminal
/// batch carrying a depth-limited copy of the tree; and capacity figures
/// exactly when the root is a volume root with a mounted match.
pub open spec fn scan_delivery(
    snap: FsSnapshot,
    disks: Seq<DiskRecord>,
    bs: Seq<PartialScanResult>,
    full: FileNode,
) -> bool {
    &&& full.name@ == snap.root.name@
    &&& full.path@ == snap.root.path@
    &&& full.shape_wf()
    &&& full.well_sized()
    &&& entry_outcome(snap, snap.root, Seq::<usize>::empty(), Set::<u64>::empty(), full)
    &&& bs.len() >= 1
    &&& bs.last().is_complete
    &&& forall|i: int| 0 <= i < bs.len() - 1 ==> nonterminal(#[trigger] bs[i])
    &&& bs.last().total_size == full.size
    &&& bs.last().total_scanned == root_order(full).len()
    &&& stream_extends(Seq::empty(), concat_nodes(bs), root_order(full))
    &&& (bs.last().root_node matches Some(rl) && limited(full, MAX_DEPTH as int, rl))
    &&& (!spec_is_root_directory(snap.root.path@) ==> bs.last().disk_info is None)
    &&& (spec_is_root_directory(snap.root.path@) ==> match bs.last().disk_info {
        Some(info) => exists|i: int| chosen_disk(snap.root.path@, disks, i, info),
        None => forall|i: int|
            0 <= i < disks.len() ==> !disk_matches(snap.root.path@, #[trigger] disks[i]),
    })
}

/// What a call of the session guarantees: rejection exactly for a missing
/// root, and for everything else a delivery witnessed by the fully expanded
/// root tree.
pub open spec fn session_post(
    snapshot: Option<&FsSnapshot>,
    disks: Seq<DiskRecord>,
    r: Result<Vec<PartialScanResult>, ScanError>,
) -> bool {
    &&& (r is Err) <==> (snapshot is None)
    &&& (r matches Err(e) ==> e == ScanError::RootNotFound)
    &&& (r matches Ok(batches) ==> (snapshot matches Some(snap) && exists|full: FileNode|
        #[trigger] scan_delivery(*snap, disks, batches@, full)))
}

/// Run one scan. A missing root — no snapshot — is rejected synchronously,
/// before any work, and nothing is ever delivered for it; otherwise the walk
/// runs to completion and the delivered batches are returned in delivery
/// order, the terminal batch last. The snapshot must fit the counters: the
/// pending entry count and the root's bytes plus pending bytes must fit the
/// counter width. Capacity reports never claim more available than total
/// space.
pub fn scan_directory_streaming(snapshot: Option<&FsSnapshot>, disks: &Vec<DiskRecord>) -> (r:
    Result<Vec<PartialScanResult>, ScanError>)
    requires
        forall|i: int|
            0 <= i < disks@.len() ==> (#[trigger] disks@[i]).available_space
                <= disks@[i].total_space,
        snapshot matches Some(snap) ==> {
            &&& snap.wf()
            &&& cnt_pending(*snap, Set::empty()) <= u64::MAX
            &&& size_weight(snap.root.kind) + size_pending(*snap, Set::empty()) <= u64::MAX
        },
    ensures
        session_post(snapshot, disks@, r),
{
    let snap = match snapshot {
        Some(s) => s,
        None => {
            return Err(ScanError::RootNotFound);
        },
    };
    let disk_info = if is_root_directory(snap.root.path.as_str()) {
        get_disk_info(snap.root.path.as_str(), disks)
    } else {
        None
    };
    let mut guard = CycleGuard::new();
    let mut em = BatchEmitter::new();
    proof {
        lemma_walk_weights_nonneg();
        lemma_pending_w_nonneg(snap.dirs@, Set::empty(), snap.dirs@.len() as int, cnt_w());
        lemma_pending_w_nonneg(snap.dirs@, Set::empty(), snap.dirs@.len() as int, size_w());
    }
    let root_node: FileNode = match snap.root.kind {
        EntryKind::File { identity, size } | EntryKind::SymlinkFile { identity, size } => {
            guard.mark_visited_inode(identity);
            em.add_size(size);
            FileNode {
                name: snap.root.name.clone(),
                size,
                path: snap.root.path.clone(),
                children: None,
                is_directory: false,
            }
        },
        EntryKind::Dir { dir_id } | EntryKind::SymlinkDir { dir_id } => {
            let identity = snap.dirs[dir_id].identity;
            let outcome = guard.enter(dir_id, identity);
            let ghost n = snap.dirs@.len() as int;
            proof {
                assert(outcome == EnterOutcome::Descend);
                lemma_pending_w_insert(snap.dirs@, Set::empty(), n, cnt_w(), dir_id as int);
                lemma_pending_w_insert(snap.dirs@, Set::empty(), n, size_w(), dir_id as int);
                lemma_entries_w_nonneg(snap.dirs@[dir_id as int].entries@, cnt_w());
                lemma_entries_w_nonneg(snap.dirs@[dir_id as int].entries@, size_w());
            }
            let (children, total) = scan_dir_entries(snap, dir_id, &mut guard, &mut em);
            guard.leave(dir_id);
            FileNode {
                name: snap.root.name.clone(),
                size: total,
                path: snap.root.path.clone(),
                children: Some(children),
                is_directory: true,
            }
        },
        EntryKind::Unreadable | EntryKind::SymlinkBroken | EntryKind::SymlinkOutside => {
            FileNode {
                name: snap.root.name.clone(),
                size: 0,
                path: snap.root.path.clone(),
                children: None,
                is_directory: false,
            }
        },
    };
    let ghost pre_delivered = em.delivered@;
    let ghost pre_stream = em.stream();
    let limited_root = build_limited_depth_node(&root_node, MAX_DEPTH);
    em.send_final_batch(limited_root, disk_info);
    let batches = em.finish();
    proof {
        let bs = batches@;
        assert(bs.last().root_node == Some(limited_root));
        assert(concat_nodes(bs) =~= pre_stream) by {
            crate::emitter::lemma_concat_nodes_push(pre_delivered, bs.last());
            assert(bs =~= pre_delivered.push(bs.last()));
        }
        assert forall|i: int| 0 <= i < bs.len() - 1 implies nonterminal(#[trigger] bs[i]) by {
            assert(bs[i] == pre_delivered[i]);
        }
        assert(root_node.shape_wf());
        assert(root_node.well_sized());
        assert(stream_extends(Seq::<FileNode>::empty(), concat_nodes(bs), root_order(root_node)));
        assert(scan_delivery(*snap, disks@, bs, root_node));
    }
    let ghost gbatches = batches@;
    let res: Result<Vec<PartialScanResult>, ScanError> = Ok(batches);
    proof {
        assert(session_post(snapshot, disks@, res)) by {
            assert(res matches Ok(b) && b@ == gbatches);
            assert(snapshot matches Some(s) && *s == *snap);
            assert(scan_delivery(*snap, disks@, gbatches, root_node));
        }
    }
    res
}

} // verus!
