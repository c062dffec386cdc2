//! Buffered, batched delivery of completed nodes.
//!
//! Completed nodes are appended to a buffer together with race-free updates
//! of the two cumulative counters. When the buffer reaches a fixed threshold
//! it is drained into a non-terminal batch; at the end of a scan whatever
//! remains is drained into the terminal batch, which alone carries the
//! completion flag, the finalized root tree and, for volume-root scans, the
//! capacity figures. Batches are kept in delivery order: the consumer is
//! handed them first to last.

use vstd::prelude::*;
use crate::node::FileNode;
use crate::volume::DiskInfo;

verus! {

broadcast use vstd::std_specs::vec::group_vec_axioms, vstd::seq::group_seq_axioms;

/// Buffered nodes are flushed to the sink once this many have gathered.
pub const BATCH_SIZE: usize = 10000;

/// One message to the streaming sink. Every batch reports the cumulative
/// counters at the moment it was drained; only the terminal batch has
/// `is_complete` set, a root tree, and possibly volume capacity data.
#[derive(Debug)]
pub struct PartialScanResult {
    pub nodes: Vec<FileNode>,
    pub total_scanned: u64,
    pub total_size: u64,
    pub is_complete: bool,
    pub root_node: Option<FileNode>,
    pub disk_info: Option<DiskInfo>,
}

/// A batch that is not the terminal one: no completion flag, no root tree,
/// no capacity data.
pub open spec fn nonterminal(b: PartialScanResult) -> bool {
    &&& !b.is_complete
    &&& b.root_node is None
    &&& b.disk_info is None
}

/// All nodes the sink has been handed, batch by batch, in delivery order.
pub open spec fn concat_nodes(bs: Seq<PartialScanResult>) -> Seq<FileNode>
    decreases bs.len(),
{
    if bs.len() == 0 {
        Seq::empty()
    } else {
        concat_nodes(bs.drop_last()) + bs.last().nodes@
    }
}

/// `post` is `pre` with zero or more non-terminal batches delivered after it.
pub open spec fn batches_extend(pre: Seq<PartialScanResult>, post: Seq<PartialScanResult>) -> bool {
    &&& pre.is_prefix_of(post)
    &&& forall|i: int| pre.len() <= i < post.len() ==> nonterminal(#[trigger] post[i])
}

/// Appending a batch appends exactly its nodes to the delivered stream.
pub proof fn lemma_concat_nodes_push(bs: Seq<PartialScanResult>, b: PartialScanResult)
    ensures
        concat_nodes(bs.push(b)) == concat_nodes(bs) + b.nodes@,
{
    assert(bs.push(b).drop_last() == bs);
    assert(bs.push(b).last() == b);
}

/// Extending in two steps extends overall.
pub proof fn lemma_batches_extend_trans(
    a: Seq<PartialScanResult>,
    b: Seq<PartialScanResult>,
    c: Seq<PartialScanResult>,
)
    requires
        batches_extend(a, b),
        batches_extend(b, c),
    ensures
        batches_extend(a, c),
{
    assert forall|i: int| 0 <= i < a.len() implies a[i] == c[i] by {
        assert(a[i] == b[i]);
        assert(b[i] == c[i]);
    }
    assert(a =~= c.subrange(0, a.len() as int));
    assert forall|i: int| a.len() <= i < c.len() implies nonterminal(#[trigger] c[i]) by {
        if i < b.len() {
            assert(c[i] == b[i]);
        }
    }
}

/// The shared aggregation state of one scan: the cumulative counters, the
/// node buffer, and the batches delivered so far.
pub struct BatchEmitter {
    pub counter: u64,
    pub scanned_size: u64,
    pub batch_buffer: Vec<FileNode>,
    pub delivered: Vec<PartialScanResult>,
}

impl BatchEmitter {
    /// Every node handed over so far, delivered or still buffered, in
    /// completion order.
    pub open spec fn stream(self) -> Seq<FileNode> {
        concat_nodes(self.delivered@) + self.batch_buffer@
    }

    /// Fresh state: zero counters, nothing buffered, nothing delivered.
    pub fn new() -> (em: BatchEmitter)
        ensures
            em.counter == 0,
            em.scanned_size == 0,
            em.batch_buffer@ == Seq::<FileNode>::empty(),
            em.delivered@ == Seq::<PartialScanResult>::empty(),
            em.stream() == Seq::<FileNode>::empty(),
    {
        let em = BatchEmitter {
            counter: 0,
            scanned_size: 0,
            batch_buffer: Vec::new(),
            delivered: Vec::new(),
        };
        proof {
            assert(em.stream() =~= Seq::<FileNode>::empty());
        }
        em
    }

    /// Count one visited entry.
    pub fn increment_counter(&mut self)
        requires
            old(self).counter < u64::MAX,
        ensures
            final(self).counter == old(self).counter + 1,
            final(self).scanned_size == old(self).scanned_size,
            final(self).batch_buffer == old(self).batch_buffer,
            final(self).delivered == old(self).delivered,
    {
        self.counter = self.counter + 1;
    }

    /// Account one visited file's bytes.
    pub fn add_size(&mut self, size: u64)
        requires
            old(self).scanned_size + size <= u64::MAX,
        ensures
            final(self).scanned_size == old(self).scanned_size + size,
            final(self).counter == old(self).counter,
            final(self).batch_buffer == old(self).batch_buffer,
            final(self).delivered == old(self).delivered,
    {
        self.scanned_size = self.scanned_size + size;
    }

    /// Buffer one completed node; true when the buffer has reached the
    /// flush threshold.
    pub fn add_to_buffer(&mut self, node: FileNode) -> (full: bool)
        ensures
            final(self).batch_buffer@ == old(self).batch_buffer@.push(node),
            final(self).counter == old(self).counter,
            final(self).scanned_size == old(self).scanned_size,
            final(self).delivered == old(self).delivered,
            full == (final(self).batch_buffer@.len() >= BATCH_SIZE),
            final(self).stream() == old(self).stream().push(node),
    {
        self.batch_buffer.push(node);
        proof {
            assert(self.stream() =~= old(self).stream().push(node));
        }
        self.batch_buffer.len() >= BATCH_SIZE
    }

    /// The cumulative counters: entries visited, bytes accounted.
    pub fn get_stats(&self) -> (stats: (u64, u64))
        ensures
            stats.0 == self.counter,
            stats.1 == self.scanned_size,
    {
        (self.counter, self.scanned_size)
    }

    /// Atomically take every buffered node, leaving the buffer empty.
    pub fn clear_buffer(&mut self) -> (nodes: Vec<FileNode>)
        ensures
            nodes@ == old(self).batch_buffer@,
            final(self).batch_buffer@ == Seq::<FileNode>::empty(),
            final(self).counter == old(self).counter,
            final(self).scanned_size == old(self).scanned_size,
            final(self).delivered == old(self).delivered,
    {
        let mut nodes: Vec<FileNode> = Vec::new();
        core::mem::swap(&mut nodes, &mut self.batch_buffer);
        nodes
    }

    /// Drain the buffer and deliver it as a non-terminal batch carrying the
    /// counters as they stand. The stream of handed-over nodes is unchanged:
    /// the buffered nodes move to the sink, none lost, none duplicated.
    pub fn send_batch(&mut self)
        ensures
            final(self).stream() == old(self).stream(),
            final(self).counter == old(self).counter,
            final(self).scanned_size == old(self).scanned_size,
            final(self).batch_buffer@ == Seq::<FileNode>::empty(),
            batches_extend(old(self).delivered@, final(self).delivered@),
            final(self).delivered@.len() == old(self).delivered@.len() + 1,
            final(self).delivered@.last().nodes@ == old(self).batch_buffer@,
            final(self).delivered@.last().total_scanned == old(self).counter,
            final(self).delivered@.last().total_size == old(self).scanned_size,
    {
        let (total_items, total_size) = self.get_stats();
        let nodes = self.clear_buffer();
        let payload = PartialScanResult {
            nodes,
            total_scanned: total_items,
            total_size,
            is_complete: false,
            root_node: None,
            disk_info: None,
        };
        self.delivered.push(payload);
        proof {
            lemma_concat_nodes_push(old(self).delivered@, self.delivered@.last());
            assert(self.stream() =~= old(self).stream());
            assert(old(self).delivered@.is_prefix_of(self.delivered@)) by {
                assert(old(self).delivered@ =~= self.delivered@.subrange(
                    0,
                    old(self).delivered@.len() as int,
                ));
            }
        }
    }

    /// Drain the rest of the buffer and deliver it as the terminal batch:
    /// completion flag set, final counters, the finalized (depth-limited)
    /// root tree, and capacity data when the scan root was a volume root.
    pub fn send_final_batch(&mut self, root_node: FileNode, disk_info: Option<DiskInfo>)
        ensures
            final(self).stream() == old(self).stream(),
            final(self).counter == old(self).counter,
            final(self).scanned_size == old(self).scanned_size,
            final(self).batch_buffer@ == Seq::<FileNode>::empty(),
            final(self).delivered@ == old(self).delivered@.push(final(self).delivered@.last()),
            final(self).delivered@.last().nodes@ == old(self).batch_buffer@,
            final(self).delivered@.last().total_scanned == old(self).counter,
            final(self).delivered@.last().total_size == old(self).scanned_size,
            final(self).delivered@.last().is_complete,
            final(self).delivered@.last().root_node == Some(root_node),
            final(self).delivered@.last().disk_info == disk_info,
    {
        let (total_items, total_size) = self.get_stats();
        let remaining_nodes = self.clear_buffer();
        let payload = PartialScanResult {
            nodes: remaining_nodes,
            total_scanned: total_items,
            total_size,
            is_complete: true,
            root_node: Some(root_node),
            disk_info,
        };
        self.delivered.push(payload);
        proof {
            lemma_concat_nodes_push(old(self).delivered@, self.delivered@.last());
            assert(self.stream() =~= old(self).stream());
        }
    }

    /// End of scan: hand over the batches, in delivery order.
    pub fn finish(self) -> (out: Vec<PartialScanResult>)
        ensures
            out@ == self.delivered@,
    {
        self.delivered
    }
}

} // verus!
