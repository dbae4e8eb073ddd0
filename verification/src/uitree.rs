//! Nodes of the interface tree.

use vstd::prelude::*;

pub use crate::beacon_target::UiNodeId;

verus! {

/// What a node shows.
#[derive(Debug, Clone, PartialEq, Eq)]
pub enum UiNodeKind {
    /// Container.
    Box,
    /// Text.
    Text(String),
}

/// A node with its children.
#[derive(Debug, PartialEq, Eq)]
pub struct UiNode {
    /// Identity of the node.
    pub id: UiNodeId,
    /// What it shows.
    pub kind: UiNodeKind,
    /// Its children, in order.
    pub children: Vec<UiNode>,
}

/// The number of nodes of a run of trees.
pub open spec fn forest_size(children: Seq<UiNode>) -> nat
    decreases children,
{
    if children.len() == 0 {
        0
    } else {
        forest_size(children.drop_last()) + children.last().size()
    }
}

/// A count, or the largest number when it does not fit.
pub open spec fn capped(n: nat) -> nat {
    if n <= usize::MAX {
        n
    } else {
        usize::MAX as nat
    }
}

impl UiNode {
    /// The number of nodes of the tree.
    pub open spec fn size(self) -> nat
        decreases self,
    {
        1 + forest_size(self.children@)
    }

    /// Creates a node with children.
    #[must_use]
    pub fn new(id: UiNodeId, kind: UiNodeKind, children: Vec<UiNode>) -> (node: Self)
        ensures
            node == (UiNode { id, kind, children }),
    {
        Self { id, kind, children }
    }

    /// Creates a node without children.
    #[must_use]
    pub fn leaf(id: UiNodeId, kind: UiNodeKind) -> (node: Self)
        ensures
            node.id == id,
            node.kind == kind,
            node.children@ == Seq::<UiNode>::empty(),
    {
        Self { id, kind, children: Vec::new() }
    }

    /// Counts the nodes of the tree; the count stops at the largest number.
    #[must_use]
    pub fn count_nodes(&self) -> (n: usize)
        ensures
            n == capped(self.size()),
        decreases self,
    {
        let mut n: usize = 1;
        let mut i: usize = 0;
        assert(self.children@.take(0) =~= Seq::<UiNode>::empty());
        while i < self.children.len()
            invariant
                0 <= i <= self.children.len(),
                n == capped(1 + forest_size(self.children@.take(i as int))),
            decreases self.children.len() - i,
        {
            assert(self.children@.take(i + 1).drop_last() =~= self.children@.take(i as int));
            assert(self.children@.take(i + 1).last() == self.children@[i as int]);
            n = n.saturating_add(self.children[i].count_nodes());
            i = i + 1;
        }
        assert(self.children@.take(i as int) =~= self.children@);
        n
    }
}

/// A node counts itself and every node below it: a node without children is one
/// node, and each child adds its own count.
pub proof fn nodes_count_what_is_below(node: UiNode, children: Seq<UiNode>, child: UiNode)
    ensures
        node.size() == 1 + forest_size(node.children@),
        node.children@.len() == 0 ==> node.size() == 1,
        forest_size(children.push(child)) == forest_size(children) + child.size(),
        node.children@ == children.push(child) ==> node.size() == 1 + forest_size(children)
            + child.size(),
{
    assert(children.push(child).drop_last() =~= children);
}

/// A count is told as it is, up to what a word holds.
pub proof fn counts_are_told_up_to_a_word(n: nat)
    ensures
        n <= usize::MAX ==> capped(n) == n,
        n > usize::MAX ==> capped(n) == usize::MAX,
{
}

} // verus!
