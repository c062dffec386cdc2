//! The tree that a scan produces.
//!
//! A `FileNode` is built bottom-up during a walk and is immutable once
//! returned. For a file, `size` is the physical allocation on storage; for a
//! directory, it is the recursive sum of the children's sizes. A directory
//! carries `children: Some(..)`; an empty child sequence is a distinct signal
//! meaning "directory exists but was not expanded", so a depth-limited copy
//! keeps its size while shipping no children.

use vstd::prelude::*;

verus! {

broadcast use vstd::std_specs::vec::group_vec_axioms, vstd::seq::group_seq_axioms;

/// One entry of the scanned tree: a file, a directory, or a zero-size
/// placeholder left where a cycle, a duplicate or an unreadable entry was cut.
#[derive(Debug)]
pub struct FileNode {
    pub name: String,
    pub size: u64,
    pub path: String,
    pub children: Option<Vec<FileNode>>,
    pub is_directory: bool,
}

impl FileNode {
    /// A node is shaped like what a walk returns: exactly the directories
    /// carry a child sequence.
    pub open spec fn shape_wf(self) -> bool
        decreases self,
    {
        match self.children {
            Some(c) => {
                &&& self.is_directory
                &&& forall|i: int| 0 <= i < c@.len() ==> (#[trigger] c@[i]).shape_wf()
            },
            None => !self.is_directory,
        }
    }

    /// A finalized directory's size is the sum of its children's sizes,
    /// transitively. Holds of every fully expanded tree a walk returns.
    pub open spec fn well_sized(self) -> bool
        decreases self,
    {
        match self.children {
            Some(c) => {
                &&& self.size == sum_sizes(c@)
                &&& forall|i: int| 0 <= i < c@.len() ==> (#[trigger] c@[i]).well_sized()
            },
            None => true,
        }
    }

    /// Like `well_sized`, but a directory shipped with an empty child
    /// sequence is exempt: the empty sequence means "not expanded past the
    /// depth limit", and such a node keeps the size computed by the full walk.
    pub open spec fn sizes_consistent(self) -> bool
        decreases self,
    {
        match self.children {
            Some(c) => c@.len() == 0 || {
                &&& self.size == sum_sizes(c@)
                &&& forall|i: int| 0 <= i < c@.len() ==> (#[trigger] c@[i]).sizes_consistent()
            },
            None => true,
        }
    }

    /// Number of tree levels below this node.
    pub open spec fn height(self) -> nat
        decreases self,
    {
        match self.children {
            Some(c) => seq_height(c@),
            None => 0,
        }
    }
}

/// Sum of the sizes of a sequence of nodes.
pub open spec fn sum_sizes(s: Seq<FileNode>) -> int
    decreases s.len(),
{
    if s.len() == 0 {
        0
    } else {
        sum_sizes(s.drop_last()) + s.last().size
    }
}

/// One more than the largest height among `s`, or zero if `s` is empty.
pub open spec fn seq_height(s: Seq<FileNode>) -> nat
    decreases s, s.len(),
{
    if s.len() == 0 {
        0
    } else {
        let rest = seq_height(s.drop_last());
        let last = (s.last().height() + 1) as nat;
        if rest >= last {
            rest
        } else {
            last
        }
    }
}

/// Two nodes hold the same tree: equal names, paths, sizes and kinds, and
/// pointwise equal children.
pub open spec fn node_eq(a: FileNode, b: FileNode) -> bool
    decreases a,
{
    &&& a.name@ == b.name@
    &&& a.path@ == b.path@
    &&& a.size == b.size
    &&& a.is_directory == b.is_directory
    &&& match (a.children, b.children) {
        (Some(ca), Some(cb)) => {
            &&& ca@.len() == cb@.len()
            &&& forall|i: int| 0 <= i < ca@.len() ==> node_eq(#[trigger] ca@[i], cb@[i])
        },
        (None, None) => true,
        _ => false,
    }
}

/// `b` is the one-node summary of `n` that a batch carries: same name, path,
/// size and kind, but no expanded children.
pub open spec fn is_summary_of(b: FileNode, n: FileNode) -> bool {
    &&& b.name@ == n.name@
    &&& b.path@ == n.path@
    &&& b.size == n.size
    &&& b.is_directory == n.is_directory
    &&& if n.is_directory {
        b.children matches Some(c) && c@.len() == 0
    } else {
        b.children is None
    }
}

/// The nodes of the tree under `n` in completion order: children first
/// (left to right), then the node itself. This is the order in which a walk
/// hands finished nodes to the emitter.
pub open spec fn completion_order(n: FileNode) -> Seq<FileNode>
    decreases n, 0nat,
{
    match n.children {
        Some(c) => completion_order_upto(c@, c@.len() as int).push(n),
        None => seq![n],
    }
}

/// Completion order of the trees under the first `i` nodes of `s`.
pub open spec fn completion_order_upto(s: Seq<FileNode>, i: int) -> Seq<FileNode>
    decreases s, i,
{
    if i <= 0 || s.len() < i {
        Seq::empty()
    } else {
        completion_order_upto(s, i - 1) + completion_order(s[i - 1])
    }
}

/// Each node of a tree stands in its completion order exactly once, so the
/// order is never shorter than one (the node itself ends it).
pub proof fn lemma_completion_order_len(n: FileNode)
    ensures
        completion_order(n).len() >= 1,
        completion_order(n).last() == n,
{
}

} // verus!
