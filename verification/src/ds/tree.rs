//! Rose tree used by the virtual filesystem: each node owns its payload
//! and its children.

use vstd::prelude::*;

verus! {

/// A tree node with any number of children.
pub struct TreeNode<T> {
    pub payload: T,
    pub children: Vec<TreeNode<T>>,
    pub has_parent: bool,
}

impl<T> TreeNode<T> {
    /// Number of nodes in the subtree, this node included.
    pub open spec fn count(self) -> nat
        decreases self,
    {
        1 + count_seq(self.children@, self.children@.len() as int)
    }

    /// A childless root holding `payload`; the constant form of
    /// [`Self::new`].
    pub fn new_const(payload: T) -> (n: TreeNode<T>)
        ensures
            n.payload == payload,
            n.children@.len() == 0,
            !n.has_parent,
    {
        TreeNode { payload, children: Vec::new(), has_parent: false }
    }

    /// A childless root holding `payload`.
    pub fn new(payload: T) -> (n: TreeNode<T>)
        ensures
            n.payload == payload,
            n.children@.len() == 0,
            !n.has_parent,
    {
        TreeNode { payload, children: Vec::new(), has_parent: false }
    }

    /// Adopts `child`, marking it owned; a child that already has a
    /// parent is refused, as a node may hang in one place only.
    pub fn add_child(&mut self, child: TreeNode<T>) -> (adopted: bool)
        ensures
            child.has_parent ==> !adopted && *final(self) == *old(self),
            !child.has_parent ==> adopted && final(self).children@.len() == old(
                self,
            ).children@.len() + 1 && final(self).children@.last().payload == child.payload
                && final(self).payload == old(self).payload,
    {
        if child.has_parent {
            return false;
        }
        let mut adopted_child = child;
        adopted_child.has_parent = true;
        self.children.push(adopted_child);
        true
    }

    /// Visits the subtree depth first and returns how many nodes were
    /// seen, saturating at the machine limit.
    pub fn traverse(&self) -> (n: usize)
        decreases self.count(),
    {
        let mut total: usize = 1;
        let mut i: usize = 0;
        while i < self.children.len()
            invariant
                i <= self.children@.len(),
            decreases self.children@.len() - i,
        {
            proof {
                assert(self.children@[i as int].count() < self.count()) by {
                    lemma_child_count(*self, i as int);
                }
            }
            let sub = self.children[i].traverse();
            if usize::MAX - total >= sub {
                total = total + sub;
            }
            i = i + 1;
        }
        total
    }
}

/// Total node count of the first `n` trees of `s`.
pub open spec fn count_seq<T>(s: Seq<TreeNode<T>>, n: int) -> nat
    decreases s, n,
{
    if n <= 0 || n > s.len() {
        0
    } else {
        s[n - 1].count() + count_seq(s, n - 1)
    }
}

/// A child's subtree is strictly smaller than its parent's.
proof fn lemma_child_count<T>(node: TreeNode<T>, i: int)
    requires
        0 <= i < node.children@.len(),
    ensures
        node.children@[i].count() < node.count(),
{
    lemma_count_seq_bound(node.children@, i, node.children@.len() as int);
}

/// Every counted child is bounded by the running total.
proof fn lemma_count_seq_bound<T>(s: Seq<TreeNode<T>>, i: int, n: int)
    requires
        0 <= i < n <= s.len(),
    ensures
        s[i].count() <= count_seq(s, n),
    decreases n,
{
    if i < n - 1 {
        lemma_count_seq_bound(s, i, n - 1);
    }
}

} // verus!
