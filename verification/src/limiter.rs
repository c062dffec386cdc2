//! Depth-bounded copies of a finished tree.
//!
//! The walk may build a very deep tree; the consumer is shipped a copy cut at
//! a maximum depth. A directory at the cut is re-emitted with an explicit
//! empty child sequence — the signal for "more exists, not expanded" — while
//! keeping the size computed during the full walk. Files pass through
//! unchanged, and the input tree is never mutated.

use vstd::prelude::*;
use crate::node::{node_eq, sum_sizes, FileNode};

verus! {

broadcast use vstd::std_specs::vec::group_vec_axioms, vstd::seq::group_seq_axioms;

/// `r` is the copy of `n` cut `rem` levels below `n`: the same name, path,
/// size and kind everywhere, with every directory at the cut shipped as an
/// empty child sequence.
pub open spec fn limited(n: FileNode, rem: int, r: FileNode) -> bool
    decreases n,
{
    &&& r.name@ == n.name@
    &&& r.path@ == n.path@
    &&& r.size == n.size
    &&& r.is_directory == n.is_directory
    &&& if rem <= 0 {
        if n.is_directory {
            r.children matches Some(c) && c@.len() == 0
        } else {
            r.children is None
        }
    } else {
        match (n.children, r.children) {
            (Some(nc), Some(rc)) => {
                &&& nc@.len() == rc@.len()
                &&& forall|i: int|
                    0 <= i < nc@.len() ==> limited(#[trigger] nc@[i], rem - 1, rc@[i])
            },
            (None, None) => true,
            _ => false,
        }
    }
}

/// Copy `node` cut at `max_depth` levels below the root.
pub fn build_limited_depth_node(node: &FileNode, max_depth: usize) -> (r: FileNode)
    ensures
        limited(*node, max_depth as int, r),
{
    build_limited_depth_node_recursive(node, 0, max_depth)
}

/// Copy `node` — which stands `current_depth` levels below the root — cut at
/// `max_depth` levels below the root.
pub fn build_limited_depth_node_recursive(node: &FileNode, current_depth: usize, max_depth: usize) -> (r: FileNode)
    ensures
        limited(*node, max_depth - current_depth, r),
    decreases *node,
{
    if current_depth >= max_depth {
        return FileNode {
            name: node.name.clone(),
            size: node.size,
            path: node.path.clone(),
            children: if node.is_directory {
                Some(Vec::new())
            } else {
                None
            },
            is_directory: node.is_directory,
        };
    }
    let limited_children: Option<Vec<FileNode>> = match node.children {
        Some(ref children) => {
            let mut out: Vec<FileNode> = Vec::new();
            let mut i: usize = 0;
            while i < children.len()
                invariant
                    node.children matches Some(c) && c == *children,
                    i <= children@.len(),
                    out@.len() == i,
                    current_depth < max_depth,
                    forall|j: int|
                        0 <= j < i ==> limited(
                            #[trigger] children@[j],
                            max_depth - current_depth - 1,
                            out@[j],
                        ),
                decreases children@.len() - i,
            {
                let child = build_limited_depth_node_recursive(&children[i], current_depth + 1, max_depth);
                out.push(child);
                i = i + 1;
            }
            Some(out)
        },
        None => None,
    };
    FileNode {
        name: node.name.clone(),
        size: node.size,
        path: node.path.clone(),
        children: limited_children,
        is_directory: node.is_directory,
    }
}

/// Cutting at the root returns the root alone: its name, path and full size,
/// with an empty child sequence if it is a directory and none if it is a file.
pub proof fn lemma_limit_zero(n: FileNode, r: FileNode)
    requires
        limited(n, 0, r),
    ensures
        r.name@ == n.name@,
        r.path@ == n.path@,
        r.size == n.size,
        r.is_directory == n.is_directory,
        n.is_directory ==> (r.children matches Some(c) && c@.len() == 0),
        !n.is_directory ==> r.children is None,
{
}

/// A cut at or below the tree's own height changes nothing: the copy holds
/// the same tree as the input.
pub proof fn lemma_limit_deep(n: FileNode, rem: int, r: FileNode)
    requires
        limited(n, rem, r),
        rem >= n.height(),
        n.shape_wf(),
    ensures
        node_eq(r, n),
    decreases n,
{
    match n.children {
        Some(nc) => {
            if nc@.len() == 0 {
                assert(n.height() == 0 && n.is_directory);
                assert(r.children matches Some(rc) && rc@.len() == 0);
            } else {
                assert(rem > 0) by {
                    assert(n.height() >= crate::node::seq_height(nc@));
                    lemma_seq_height_ge(nc@, 0);
                }
                let rc = r.children.unwrap();
                assert forall|i: int| 0 <= i < nc@.len() implies node_eq(#[trigger] rc@[i], nc@[i]) by {
                    lemma_seq_height_ge(nc@, i);
                    assert(n.is_directory);
                    assert(n.children == Some(nc));
                    assert(nc@[i].shape_wf());
                    assert(limited(nc@[i], rem - 1, rc@[i]));
                    lemma_limit_deep(nc@[i], rem - 1, rc@[i]);
                }
            }
        },
        None => {},
    }
}

/// Every node's height is above each child's.
proof fn lemma_seq_height_ge(s: Seq<FileNode>, i: int)
    requires
        0 <= i < s.len(),
    ensures
        crate::node::seq_height(s) >= s[i].height() + 1,
    decreases s.len(),
{
    if i == s.len() - 1 {
    } else {
        lemma_seq_height_ge(s.drop_last(), i);
    }
}

/// A depth-limited copy of a well-sized tree still reports consistent sizes:
/// every shipped directory's size is the sum of its shipped children, except
/// where the children were cut, where it keeps the full walk's size.
pub proof fn lemma_limit_keeps_sizes(n: FileNode, rem: int, r: FileNode)
    requires
        limited(n, rem, r),
        n.well_sized(),
    ensures
        r.sizes_consistent(),
    decreases n,
{
    if rem <= 0 {
        if n.is_directory {
            let rc = r.children.unwrap();
            assert(rc@.len() == 0);
        }
    } else {
        match n.children {
            Some(nc) => {
                let rc = r.children.unwrap();
                assert forall|i: int| 0 <= i < rc@.len() implies (#[trigger] rc@[i]).sizes_consistent() by {
                    assert(nc@[i].well_sized());
                    assert(limited(nc@[i], rem - 1, rc@[i]));
                    lemma_limit_keeps_sizes(nc@[i], rem - 1, rc@[i]);
                }
                assert forall|i: int| 0 <= i < nc@.len() implies #[trigger] nc@[i].size == rc@[i].size by {
                    assert(limited(nc@[i], rem - 1, rc@[i]));
                }
                lemma_sum_sizes_pointwise(nc@, rc@);
            },
            None => {},
        }
    }
}

/// Sequences of nodes with pointwise equal sizes have equal size sums.
proof fn lemma_sum_sizes_pointwise(a: Seq<FileNode>, b: Seq<FileNode>)
    requires
        a.len() == b.len(),
        forall|i: int| 0 <= i < a.len() ==> #[trigger] a[i].size == b[i].size,
    ensures
        sum_sizes(a) == sum_sizes(b),
    decreases a.len(),
{
    if a.len() > 0 {
        lemma_sum_sizes_pointwise(a.drop_last(), b.drop_last());
    }
}

} // verus!
