//! Cycle and duplicate detection.
//!
//! The guard is the sole authority for cycle decisions during a walk. It
//! tracks two things: the identities (stable platform keys, such as inode
//! numbers) of every entry already counted, and the set of directories
//! currently being descended into. A directory already on the descent path is
//! a live symlink loop; an identity already counted is a hard link or a
//! previously followed symlink target. Either way the walk gets a zero-size
//! placeholder instead of a second descent.

use vstd::prelude::*;

verus! {

broadcast use vstd::std_specs::vec::group_vec_axioms, vstd::seq::group_seq_axioms;

/// What `enter` decided for a directory boundary.
#[derive(Debug, Clone, Copy, PartialEq, Eq, Structural)]
pub enum EnterOutcome {
    /// The directory is an active ancestor: a symlink loop. Do not descend.
    AncestorLoop,
    /// The directory's identity was counted before: a duplicate. Do not descend.
    AlreadyCounted,
    /// Fresh directory: its identity is now counted, it is now an active
    /// ancestor, and the walk may descend.
    Descend,
}

/// Tracks counted identities and the active descent path of one scan.
pub struct CycleGuard {
    visited_inodes: Vec<u64>,
    recursion_stack: Vec<usize>,
}

impl CycleGuard {
    /// The identities counted so far.
    pub closed spec fn visited(self) -> Set<u64> {
        self.visited_inodes@.to_set()
    }

    /// The directories on the active descent path, outermost first.
    pub closed spec fn ancestors(self) -> Seq<usize> {
        self.recursion_stack@
    }

    /// The descent path never holds a directory twice.
    pub closed spec fn wf(self) -> bool {
        self.recursion_stack@.no_duplicates()
    }

    /// A fresh guard: nothing counted, nothing being descended.
    pub fn new() -> (g: CycleGuard)
        ensures
            g.visited() == Set::<u64>::empty(),
            g.ancestors() == Seq::<usize>::empty(),
            g.wf(),
    {
        let g = CycleGuard { visited_inodes: Vec::new(), recursion_stack: Vec::new() };
        proof {
            assert(g.visited_inodes@.to_set() =~= Set::<u64>::empty());
        }
        g
    }

    /// Has this identity been counted already?
    pub fn is_visited_inode(&self, inode: u64) -> (r: bool)
        ensures
            r == self.visited().contains(inode),
    {
        let mut i: usize = 0;
        while i < self.visited_inodes.len()
            invariant
                i <= self.visited_inodes@.len(),
                forall|j: int| 0 <= j < i ==> self.visited_inodes@[j] != inode,
            decreases self.visited_inodes@.len() - i,
        {
            if self.visited_inodes[i] == inode {
                proof {
                    assert(self.visited_inodes@.contains(inode));
                }
                return true;
            }
            i = i + 1;
        }
        proof {
            assert(!self.visited_inodes@.contains(inode));
        }
        false
    }

    /// Count an identity.
    pub fn mark_visited_inode(&mut self, inode: u64)
        ensures
            final(self).visited() == old(self).visited().insert(inode),
            final(self).ancestors() == old(self).ancestors(),
            final(self).wf() == old(self).wf(),
    {
        self.visited_inodes.push(inode);
        proof {
            assert(self.visited_inodes@.to_set() =~= old(self).visited_inodes@.to_set().insert(
                inode,
            )) by {
                assert(self.visited_inodes@.drop_last() == old(self).visited_inodes@);
                assert forall|x: u64| self.visited_inodes@.contains(x) implies old(
                    self,
                ).visited_inodes@.contains(x) || x == inode by {
                    let k = choose|k: int|
                        0 <= k < self.visited_inodes@.len() && self.visited_inodes@[k] == x;
                    if k < old(self).visited_inodes@.len() {
                        assert(old(self).visited_inodes@[k] == x);
                    }
                }
                assert forall|x: u64| old(self).visited_inodes@.contains(x)
                    implies self.visited_inodes@.contains(x) by {
                    let k = choose|k: int|
                        0 <= k < old(self).visited_inodes@.len() && old(self).visited_inodes@[k]
                            == x;
                    assert(self.visited_inodes@[k] == x);
                }
                assert(self.visited_inodes@.contains(inode)) by {
                    assert(self.visited_inodes@.last() == inode);
                }
            }
        }
    }

    /// Is this directory an active ancestor?
    pub fn is_in_recursion_stack(&self, dir: usize) -> (r: bool)
        ensures
            r == self.ancestors().contains(dir),
    {
        let mut i: usize = 0;
        while i < self.recursion_stack.len()
            invariant
                i <= self.recursion_stack@.len(),
                forall|j: int| 0 <= j < i ==> self.recursion_stack@[j] != dir,
            decreases self.recursion_stack@.len() - i,
        {
            if self.recursion_stack[i] == dir {
                return true;
            }
            i = i + 1;
        }
        false
    }

    /// Put a directory on the descent path.
    pub fn push_to_recursion_stack(&mut self, dir: usize)
        requires
            old(self).wf(),
            !old(self).ancestors().contains(dir),
        ensures
            final(self).ancestors() == old(self).ancestors().push(dir),
            final(self).visited() == old(self).visited(),
            final(self).wf(),
    {
        self.recursion_stack.push(dir);
        proof {
            assert(self.recursion_stack@.drop_last() == old(self).recursion_stack@);
        }
    }

    /// Take the most recent directory off the descent path, once every child
    /// below it has returned.
    pub fn pop_from_recursion_stack(&mut self, dir: usize)
        requires
            old(self).wf(),
            old(self).ancestors().len() > 0,
            old(self).ancestors().last() == dir,
        ensures
            final(self).ancestors() == old(self).ancestors().drop_last(),
            final(self).visited() == old(self).visited(),
            final(self).wf(),
    {
        let _ = self.recursion_stack.pop();
        proof {
            assert(self.recursion_stack@.no_duplicates());
        }
    }

    /// The atomic decision at a directory boundary, in order: an active
    /// ancestor is a symlink loop; a counted identity is a duplicate;
    /// otherwise the identity is counted, the directory joins the descent
    /// path, and the walk may descend.
    pub fn enter(&mut self, dir: usize, identity: u64) -> (outcome: EnterOutcome)
        requires
            old(self).wf(),
        ensures
            final(self).wf(),
            old(self).ancestors().contains(dir) ==> outcome == EnterOutcome::AncestorLoop
                && *final(self) == *old(self),
            !old(self).ancestors().contains(dir) && old(self).visited().contains(identity)
                ==> outcome == EnterOutcome::AlreadyCounted && *final(self) == *old(self),
            !old(self).ancestors().contains(dir) && !old(self).visited().contains(identity)
                ==> outcome == EnterOutcome::Descend && final(self).visited() == old(
                self,
            ).visited().insert(identity) && final(self).ancestors() == old(
                self,
            ).ancestors().push(dir),
    {
        if self.is_in_recursion_stack(dir) {
            EnterOutcome::AncestorLoop
        } else if self.is_visited_inode(identity) {
            EnterOutcome::AlreadyCounted
        } else {
            self.mark_visited_inode(identity);
            self.push_to_recursion_stack(dir);
            EnterOutcome::Descend
        }
    }

    /// The matching exit: the directory leaves the descent path.
    pub fn leave(&mut self, dir: usize)
        requires
            old(self).wf(),
            old(self).ancestors().len() > 0,
            old(self).ancestors().last() == dir,
        ensures
            final(self).ancestors() == old(self).ancestors().drop_last(),
            final(self).visited() == old(self).visited(),
            final(self).wf(),
    {
        self.pop_from_recursion_stack(dir);
    }
}

} // verus!
