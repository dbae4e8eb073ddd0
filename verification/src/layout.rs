//! Layout tree, deterministic solver, and resize and reflow helpers.
//!
//! Given a container rectangle, [`LayoutNode::layout`] allocates one rectangle
//! to every leaf, in depth-first order. Split ratios are clamped and the
//! solver is total over all inputs.

use crate::float32;
use crate::float32::Float32;
use crate::geometry;
use crate::geometry::{Gaps, Rect, Size, SplitAxis};
use crate::tree;
use crate::tree::Tree;
use crate::view::{LeafView, ViewId};
use vstd::prelude::*;

verus! {

/// Z-index tier for floating overlays, lowest paints first.
///
/// `Editor` is base-level chrome, `Float` the default for floating panes,
/// `Popup` for transient popups and `Messages` for notifications.
#[derive(Debug, Clone, Copy, PartialEq, Eq, Structural, PartialOrd, Ord, Hash)]
pub enum OverlayTier {
    /// Base-level editor chrome (bottom).
    Editor,
    /// Generic floating panes.
    Float,
    /// Transient popups above floats.
    Popup,
    /// Notifications and banners (top).
    Messages,
}

impl OverlayTier {
    /// Lowest paint tier.
    pub const BOTTOM: Self = Self::Editor;

    /// Highest paint tier.
    pub const TOP: Self = Self::Messages;
}

/// The paint rank of a tier.
pub open spec fn tier_rank(t: OverlayTier) -> nat {
    match t {
        OverlayTier::Editor => 0,
        OverlayTier::Float => 1,
        OverlayTier::Popup => 2,
        OverlayTier::Messages => 3,
    }
}

impl Default for OverlayTier {
    /// Overlays without an explicit tier float.
    fn default() -> (t: Self)
        ensures
            t == OverlayTier::Float,
    {
        Self::Float
    }
}

/// One floating layer composed above a base node by
/// [`LayoutNode::overlay_stack`].
#[derive(Debug, PartialEq)]
pub struct OverlayLayer {
    /// Z-index tier of this layer.
    pub tier: OverlayTier,
    /// Layer content.
    pub node: LayoutNode,
    /// Desired layer bounds in container-local coordinates (clipped to the
    /// container).
    pub bounds: Rect,
}

impl OverlayLayer {
    /// What the layer adds to a base: its tier, its tree and its bounds.
    pub open spec fn sheet(self) -> (OverlayTier, Tree, Rect) {
        (self.tier, self.node.tree(), self.bounds)
    }

    /// Creates a floating layer at `tier`.
    #[must_use]
    pub fn new(tier: OverlayTier, node: LayoutNode, bounds: Rect) -> (l: Self)
        ensures
            l.sheet() == (tier, node.tree(), bounds),
    {
        Self { tier, node, bounds }
    }
}

impl Clone for OverlayLayer {
    fn clone(&self) -> (l: Self)
        ensures
            l.sheet() == self.sheet(),
    {
        Self { tier: self.tier, node: self.node.clone(), bounds: self.bounds }
    }
}

/// Layout tree for terminal panes.
#[derive(Debug, PartialEq)]
pub enum LayoutNode {
    /// Terminal view leaf.
    Leaf(LeafView),
    /// Binary split.
    Split {
        /// Left/right or top/bottom.
        axis: SplitAxis,
        /// Fraction for the first child; clamped on construction and use.
        ratio: Float32,
        /// First child (left or top).
        first: Box<LayoutNode>,
        /// Second child (right or bottom).
        second: Box<LayoutNode>,
    },
    /// Stacked children sharing the same bounds.
    Stack(Vec<LayoutNode>),
    /// Base plus overlay.
    Overlay {
        /// Underlying content (full container).
        base: Box<LayoutNode>,
        /// Overlay content.
        overlay: Box<LayoutNode>,
        /// Desired overlay bounds in container-local coordinates (clipped to
        /// the container).
        bounds: Rect,
        /// Z-index tier of the overlay.
        tier: OverlayTier,
    },
}

impl LayoutNode {
    /// The tree that this node stands for.
    pub open spec fn tree(self) -> Tree
        decreases self,
    {
        match self {
            LayoutNode::Leaf(v) => Tree::Leaf(v),
            LayoutNode::Split { axis, ratio, first, second } => Tree::Split {
                axis,
                ratio: ratio@,
                first: Box::new(first.tree()),
                second: Box::new(second.tree()),
            },
            LayoutNode::Stack(children) => Tree::Stack(LayoutNode::trees(children@)),
            LayoutNode::Overlay { base, overlay, bounds, tier } => Tree::Overlay {
                base: Box::new(base.tree()),
                overlay: Box::new(overlay.tree()),
                bounds,
                tier,
            },
        }
    }

    /// The trees of a list of nodes.
    pub open spec fn trees(nodes: Seq<LayoutNode>) -> Seq<Tree>
        decreases nodes,
    {
        if nodes.len() == 0 {
            Seq::empty()
        } else {
            LayoutNode::trees(nodes.drop_last()).push(nodes.last().tree())
        }
    }

    pub(crate) proof fn lemma_trees_step(nodes: Seq<LayoutNode>, i: int)
        requires
            0 <= i < nodes.len(),
        ensures
            LayoutNode::trees(nodes.take(i + 1)) == LayoutNode::trees(nodes.take(i)).push(
                nodes[i].tree(),
            ),
            LayoutNode::trees(nodes.take(i + 1)).drop_last() == LayoutNode::trees(nodes.take(i)),
            LayoutNode::trees(nodes.take(i + 1)).last() == nodes[i].tree(),
    {
        assert(nodes.take(i + 1).drop_last() =~= nodes.take(i));
        assert(LayoutNode::trees(nodes.take(i)).push(nodes[i].tree()).drop_last()
            =~= LayoutNode::trees(nodes.take(i)));
    }

    pub(crate) proof fn lemma_child_is_smaller(node: LayoutNode, i: int)
        requires
            node is Stack,
            0 <= i < node->Stack_0@.len(),
        ensures
            decreases_to!(node => node->Stack_0@[i]),
    {
        assert(decreases_to!(node => node->Stack_0));
        assert(decreases_to!(node->Stack_0 => node->Stack_0@));
        assert(decreases_to!(node->Stack_0@ => node->Stack_0@[i]));
    }

    fn collect_leaf_ids(&self, out: &mut Vec<ViewId>)
        ensures
            final(out)@ == old(out)@ + self.tree().ids(),
        decreases self,
    {
        match self {
            LayoutNode::Leaf(v) => {
                out.push(v.id());
                assert(out@ =~= old(out)@ + self.tree().ids());
            },
            LayoutNode::Split { first, second, .. } => {
                first.collect_leaf_ids(out);
                second.collect_leaf_ids(out);
                assert(out@ =~= old(out)@ + self.tree().ids());
            },
            LayoutNode::Stack(children) => {
                let mut i: usize = 0;
                while i < children.len()
                    invariant
                        0 <= i <= children.len(),
                        *self == LayoutNode::Stack(*children),
                        out@ == old(out)@ + Tree::leaves_of(
                            LayoutNode::trees(children@.take(i as int)),
                        ).map_values(|v: LeafView| v.key()),
                    decreases children.len() - i,
                {
                    let ghost before = out@;
                    proof {
                        LayoutNode::lemma_trees_step(children@, i as int);
                        LayoutNode::lemma_child_is_smaller(*self, i as int);
                    }
                    children[i].collect_leaf_ids(out);
                    i = i + 1;
                    assert(out@ =~= old(out)@ + Tree::leaves_of(
                        LayoutNode::trees(children@.take(i as int)),
                    ).map_values(|v: LeafView| v.key()));
                }
                assert(children@.take(i as int) =~= children@);
            },
            LayoutNode::Overlay { base, overlay, .. } => {
                base.collect_leaf_ids(out);
                overlay.collect_leaf_ids(out);
                assert(out@ =~= old(out)@ + self.tree().ids());
            },
        }
    }

    /// A list of nodes stands for the list of their trees.
    pub proof fn trees_index(nodes: Seq<LayoutNode>)
        ensures
            LayoutNode::trees(nodes).len() == nodes.len(),
            forall|i: int|
                0 <= i < nodes.len() ==> #[trigger] LayoutNode::trees(nodes)[i] == nodes[i].tree(),
        decreases nodes.len(),
    {
        if nodes.len() > 0 {
            LayoutNode::trees_index(nodes.drop_last());
        }
    }

    pub(crate) proof fn lemma_trees_update(nodes: Seq<LayoutNode>, i: int, n: LayoutNode)
        requires
            0 <= i < nodes.len(),
        ensures
            LayoutNode::trees(nodes.update(i, n)) == LayoutNode::trees(nodes).update(i, n.tree()),
    {
        LayoutNode::trees_index(nodes);
        LayoutNode::trees_index(nodes.update(i, n));
        assert(LayoutNode::trees(nodes.update(i, n)) =~= LayoutNode::trees(nodes).update(
            i,
            n.tree(),
        ));
    }

    /// Number of leaf views in this subtree.
    #[must_use]
    pub fn leaf_count(&self) -> (n: usize)
        ensures
            n == self.tree().leaves().len(),
    {
        self.leaf_ids().len()
    }

    /// Leaf ids in depth-first order (left/top first).
    #[must_use]
    pub fn leaf_ids(&self) -> (out: Vec<ViewId>)
        ensures
            out@ == self.tree().ids(),
    {
        let mut out: Vec<ViewId> = Vec::new();
        self.collect_leaf_ids(&mut out);
        assert(out@ =~= self.tree().ids());
        out
    }

    /// Finds the first leaf with the given id.
    #[must_use]
    pub fn find_leaf(&self, id: ViewId) -> (found: Option<&LeafView>)
        ensures
            match found {
                Some(v) => tree::first_view(self.tree().leaves(), id) == Some(*v),
                None => tree::first_view(self.tree().leaves(), id) is None,
            },
        decreases self,
    {
        match self {
            LayoutNode::Leaf(v) => {
                proof {
                    tree::first_view_of_one(*v, id);
                }
                if v.id() == id {
                    Some(v)
                } else {
                    None
                }
            },
            LayoutNode::Split { first, second, .. } => {
                proof {
                    tree::first_view_of_runs(first.tree().leaves(), second.tree().leaves(), id);
                }
                match first.find_leaf(id) {
                    Some(v) => Some(v),
                    None => second.find_leaf(id),
                }
            },
            LayoutNode::Stack(children) => {
                let mut i: usize = 0;
                while i < children.len()
                    invariant
                        0 <= i <= children.len(),
                        *self == LayoutNode::Stack(*children),
                        tree::first_view(
                            Tree::leaves_of(LayoutNode::trees(children@.take(i as int))),
                            id,
                        ) is None,
                    decreases children.len() - i,
                {
                    proof {
                        LayoutNode::lemma_trees_step(children@, i as int);
                        LayoutNode::lemma_child_is_smaller(*self, i as int);
                        tree::first_view_of_runs(
                            Tree::leaves_of(LayoutNode::trees(children@.take(i as int))),
                            children@[i as int].tree().leaves(),
                            id,
                        );
                    }
                    if let Some(v) = children[i].find_leaf(id) {
                        proof {
                            LayoutNode::lemma_found_in_prefix(children@, i + 1, id);
                        }
                        return Some(v);
                    }
                    i = i + 1;
                }
                assert(children@.take(i as int) =~= children@);
                None
            },
            LayoutNode::Overlay { base, overlay, .. } => {
                proof {
                    tree::first_view_of_runs(base.tree().leaves(), overlay.tree().leaves(), id);
                }
                match base.find_leaf(id) {
                    Some(v) => Some(v),
                    None => overlay.find_leaf(id),
                }
            },
        }
    }

    /// What the first children hold, all children hold.
    proof fn lemma_found_in_prefix(nodes: Seq<LayoutNode>, n: int, id: ViewId)
        requires
            0 <= n <= nodes.len(),
            tree::first_view(Tree::leaves_of(LayoutNode::trees(nodes.take(n))), id) is Some,
        ensures
            tree::first_view(Tree::leaves_of(LayoutNode::trees(nodes)), id) == tree::first_view(
                Tree::leaves_of(LayoutNode::trees(nodes.take(n))),
                id,
            ),
        decreases nodes.len() - n,
    {
        if n == nodes.len() {
            assert(nodes.take(n) =~= nodes);
        } else {
            LayoutNode::lemma_trees_step(nodes, n);
            tree::first_view_of_runs(
                Tree::leaves_of(LayoutNode::trees(nodes.take(n))),
                nodes[n].tree().leaves(),
                id,
            );
            LayoutNode::lemma_found_in_prefix(nodes, n + 1, id);
        }
    }

    /// Position of the first child of a stack that carries the id.
    pub(crate) fn child_with(children: &Vec<LayoutNode>, id: ViewId) -> (found: Option<usize>)
        ensures
            match found {
                Some(i) => i < children.len() && children@[i as int].tree().has(id)
                    && tree::first_view(
                    Tree::leaves_of(LayoutNode::trees(children@.take(i as int))),
                    id,
                ) is None,
                None => tree::first_view(Tree::leaves_of(LayoutNode::trees(children@)), id) is None,
            },
    {
        let mut i: usize = 0;
        while i < children.len()
            invariant
                0 <= i <= children.len(),
                tree::first_view(
                    Tree::leaves_of(LayoutNode::trees(children@.take(i as int))),
                    id,
                ) is None,
            decreases children.len() - i,
        {
            proof {
                LayoutNode::lemma_trees_step(children@, i as int);
                tree::first_view_of_runs(
                    Tree::leaves_of(LayoutNode::trees(children@.take(i as int))),
                    children@[i as int].tree().leaves(),
                    id,
                );
            }
            if children[i].find_leaf(id).is_some() {
                return Some(i);
            }
            i = i + 1;
        }
        assert(children@.take(i as int) =~= children@);
        None
    }

    proof fn lemma_put_in(nodes: Seq<LayoutNode>, i: int, n: int, id: ViewId, v: LeafView)
        requires
            0 <= i < n <= nodes.len(),
            nodes[i].tree().has(id),
            tree::first_view(Tree::leaves_of(LayoutNode::trees(nodes.take(i))), id) is None,
        ensures
            Tree::put_in(LayoutNode::trees(nodes.take(n)), id, v) == LayoutNode::trees(
                nodes.take(n),
            ).update(i, nodes[i].tree().put(id, v)),
            tree::first_view(Tree::leaves_of(LayoutNode::trees(nodes.take(n))), id)
                == tree::first_view(nodes[i].tree().leaves(), id),
        decreases n,
    {
        LayoutNode::trees_index(nodes.take(n));
        LayoutNode::trees_index(nodes.take(n - 1));
        LayoutNode::lemma_trees_step(nodes, n - 1);
        tree::first_view_of_runs(
            Tree::leaves_of(LayoutNode::trees(nodes.take(n - 1))),
            nodes[n - 1].tree().leaves(),
            id,
        );
        if i < n - 1 {
            LayoutNode::lemma_put_in(nodes, i, n - 1, id, v);
        }
        assert(Tree::put_in(LayoutNode::trees(nodes.take(n)), id, v) =~= LayoutNode::trees(
            nodes.take(n),
        ).update(i, nodes[i].tree().put(id, v)));
    }

    /// Mutable access to the first leaf with the given id. What the caller
    /// writes through the reference replaces that leaf and nothing else.
    #[must_use]
    pub fn find_leaf_mut(&mut self, id: ViewId) -> (found: Option<&mut LeafView>)
        ensures
            match found {
                Some(v) => tree::first_view(old(self).tree().leaves(), id) == Some(*v)
                    && final(self).tree() == old(self).tree().put(id, *final(v)),
                None => tree::first_view(old(self).tree().leaves(), id) is None
                    && final(self).tree() == old(self).tree(),
            },
        decreases *old(self),
    {
        match self {
            LayoutNode::Leaf(v) => {
                proof {
                    tree::first_view_of_one(*v, id);
                }
                if v.id() == id {
                    Some(v)
                } else {
                    None
                }
            },
            LayoutNode::Split { first, second, .. } => {
                proof {
                    tree::first_view_of_runs(first.tree().leaves(), second.tree().leaves(), id);
                }
                if first.find_leaf(id).is_some() {
                    first.find_leaf_mut(id)
                } else {
                    second.find_leaf_mut(id)
                }
            },
            LayoutNode::Stack(children) => {
                match LayoutNode::child_with(children, id) {
                    Some(i) => {
                        let ghost nodes = children@;
                        proof {
                            assert(nodes.take(nodes.len() as int) =~= nodes);
                            LayoutNode::lemma_child_is_smaller(*old(self), i as int);
                            assert forall|v: LeafView|
                                #[trigger] Tree::put_in(LayoutNode::trees(nodes), id, v)
                                    == LayoutNode::trees(nodes).update(
                                i as int,
                                nodes[i as int].tree().put(id, v),
                            ) by {
                                LayoutNode::lemma_put_in(nodes, i as int, nodes.len() as int, id, v);
                            }
                            LayoutNode::lemma_put_in(
                                nodes,
                                i as int,
                                nodes.len() as int,
                                id,
                                arbitrary(),
                            );
                            assert forall|n: LayoutNode|
                                #[trigger] LayoutNode::trees(nodes.update(i as int, n))
                                    == LayoutNode::trees(nodes).update(i as int, n.tree()) by {
                                LayoutNode::lemma_trees_update(nodes, i as int, n);
                            }
                        }
                        let ghost all = final(children)@;
                        let child: &mut LayoutNode = &mut children[i];
                        let ghost after = *final(child);
                        assert(all == nodes.update(i as int, after));
                        let found = child.find_leaf_mut(id);
                        assert(LayoutNode::trees(all) == LayoutNode::trees(nodes).update(
                            i as int,
                            after.tree(),
                        ));
                        assert(old(self).tree() == Tree::Stack(LayoutNode::trees(nodes)));
                        assert(Tree::put_in(LayoutNode::trees(nodes), id, *final(found->Some_0))
                            == LayoutNode::trees(all));
                        found
                    },
                    None => None,
                }
            },
            LayoutNode::Overlay { base, overlay, .. } => {
                proof {
                    tree::first_view_of_runs(base.tree().leaves(), overlay.tree().leaves(), id);
                }
                if base.find_leaf(id).is_some() {
                    base.find_leaf_mut(id)
                } else {
                    overlay.find_leaf_mut(id)
                }
            },
        }
    }

    /// Updates the split ratio at `path`: for a split `0` is the first and `1`
    /// the second child, for an overlay `0` is the base and `1` the overlay,
    /// for a stack the position of the child. Returns `true` when a split was
    /// found and updated.
    pub fn set_split_ratio_at(&mut self, path: &[usize], new_ratio: Float32) -> (updated: bool)
        ensures
            updated == (old(self).tree().ratio_at(path@) is Some),
            final(self).tree() == old(self).tree().with_ratio_at(
                path@,
                float32::clamped_bits(new_ratio@),
            ),
    {
        assert(path@.skip(0) =~= path@);
        self.set_ratio_from(path, 0, new_ratio.clamp_ratio())
    }

    fn set_ratio_from(&mut self, path: &[usize], at: usize, clamped: Float32) -> (updated: bool)
        requires
            at <= path@.len(),
        ensures
            updated == (old(self).tree().ratio_at(path@.skip(at as int)) is Some),
            final(self).tree() == old(self).tree().with_ratio_at(path@.skip(at as int), clamped@),
        decreases *old(self),
    {
        if at == path.len() {
            return match self {
                LayoutNode::Split { ratio, .. } => {
                    *ratio = clamped;
                    true
                },
                _ => false,
            };
        }
        let step: usize = path[at];
        assert(path@.skip(at as int).drop_first() =~= path@.skip(at + 1));
        match self {
            LayoutNode::Leaf(_) => false,
            LayoutNode::Split { first, second, .. } => {
                if step == 0 {
                    first.set_ratio_from(path, at + 1, clamped)
                } else if step == 1 {
                    second.set_ratio_from(path, at + 1, clamped)
                } else {
                    false
                }
            },
            LayoutNode::Stack(children) => {
                proof {
                    LayoutNode::trees_index(children@);
                }
                if step < children.len() {
                    let ghost nodes = children@;
                    proof {
                        LayoutNode::lemma_child_is_smaller(*old(self), step as int);
                        assert forall|n: LayoutNode|
                            #[trigger] LayoutNode::trees(nodes.update(step as int, n))
                                == LayoutNode::trees(nodes).update(step as int, n.tree()) by {
                            LayoutNode::lemma_trees_update(nodes, step as int, n);
                        }
                    }
                    let child: &mut LayoutNode = &mut children[step];
                    let updated: bool = child.set_ratio_from(path, at + 1, clamped);
                    assert(children@ == nodes.update(step as int, children@[step as int]));
                    assert(old(self).tree() == Tree::Stack(LayoutNode::trees(nodes)));
                    assert(LayoutNode::trees(children@) == LayoutNode::trees(nodes).update(
                        step as int,
                        children@[step as int].tree(),
                    ));
                    updated
                } else {
                    false
                }
            },
            LayoutNode::Overlay { base, overlay, .. } => {
                if step == 0 {
                    base.set_ratio_from(path, at + 1, clamped)
                } else if step == 1 {
                    overlay.set_ratio_from(path, at + 1, clamped)
                } else {
                    false
                }
            },
        }
    }

    /// Deterministic layout solver: one `(id, rectangle)` pair per leaf, in
    /// depth-first order, without gaps.
    #[must_use]
    pub fn layout(&self, bounds: Rect) -> (slots: Vec<(ViewId, Rect)>)
        ensures
            slots@ == self.tree().allocate(bounds, bounds, 0),
    {
        proof {
            geometry::zero_inset_is_identity(bounds);
        }
        self.layout_with_gaps(bounds, Gaps::zero())
    }

    /// Layout solver with gaps: the outer gap insets `bounds` once, the inner
    /// gap reserves a band at every split. Children of a stack share the
    /// inset bounds; an overlay keeps its explicit position, counted from
    /// `bounds` and clipped to the inset bounds.
    #[must_use]
    pub fn layout_with_gaps(&self, bounds: Rect, gaps: Gaps) -> (slots: Vec<(ViewId, Rect)>)
        ensures
            slots@ == self.tree().allocate(bounds, geometry::inset(bounds, gaps.outer), gaps.inner),
    {
        let mut out: Vec<(ViewId, Rect)> = Vec::new();
        let inner = gaps.inset_outer(bounds);
        self.layout_inner(bounds, inner, gaps.inner, &mut out);
        assert(out@ =~= self.tree().allocate(bounds, geometry::inset(bounds, gaps.outer), gaps.inner));
        out
    }

    fn layout_inner(
        &self,
        container: Rect,
        bounds: Rect,
        gap_in: u16,
        out: &mut Vec<(ViewId, Rect)>,
    )
        ensures
            final(out)@ == old(out)@ + self.tree().allocate(container, bounds, gap_in),
        decreases self,
    {
        match self {
            LayoutNode::Leaf(v) => {
                out.push((v.id(), bounds));
                assert(out@ =~= old(out)@ + self.tree().allocate(container, bounds, gap_in));
            },
            LayoutNode::Split { axis, ratio, first, second } => {
                let (a, b) = split_rect_with_gap(bounds, *axis, *ratio, gap_in);
                first.layout_inner(a, a, gap_in, out);
                second.layout_inner(b, b, gap_in, out);
                assert(out@ =~= old(out)@ + self.tree().allocate(container, bounds, gap_in));
            },
            LayoutNode::Stack(children) => {
                let mut i: usize = 0;
                while i < children.len()
                    invariant
                        0 <= i <= children.len(),
                        *self == LayoutNode::Stack(*children),
                        out@ == old(out)@ + Tree::allocate_all(
                            LayoutNode::trees(children@.take(i as int)),
                            container,
                            bounds,
                            gap_in,
                        ),
                    decreases children.len() - i,
                {
                    proof {
                        LayoutNode::lemma_trees_step(children@, i as int);
                        LayoutNode::lemma_child_is_smaller(*self, i as int);
                    }
                    children[i].layout_inner(container, bounds, gap_in, out);
                    i = i + 1;
                    assert(out@ =~= old(out)@ + Tree::allocate_all(
                        LayoutNode::trees(children@.take(i as int)),
                        container,
                        bounds,
                        gap_in,
                    ));
                }
                assert(children@.take(i as int) =~= children@);
            },
            LayoutNode::Overlay { base, overlay, bounds: desired, .. } => {
                base.layout_inner(container, bounds, gap_in, out);
                let clipped = clip_overlay(*desired, container, bounds);
                overlay.layout_inner(clipped, clipped, gap_in, out);
                assert(out@ =~= old(out)@ + self.tree().allocate(container, bounds, gap_in));
            },
        }
    }

    /// Sizes and places the leaf views as [`LayoutNode::layout`] allocates
    /// them in `container`.
    pub fn reflow(&mut self, container: Rect)
        ensures
            final(self).tree() == old(self).tree().placed(
                old(self).tree().allocate(container, container, 0),
            ),
    {
        proof {
            geometry::zero_inset_is_identity(container);
        }
        self.reflow_with_gaps(container, Gaps::zero());
    }

    /// Sizes and places the leaf views as [`LayoutNode::layout_with_gaps`]
    /// allocates them in `container`.
    pub fn reflow_with_gaps(&mut self, container: Rect, gaps: Gaps)
        ensures
            final(self).tree() == old(self).tree().placed(
                old(self).tree().allocate(
                    container,
                    geometry::inset(container, gaps.outer),
                    gaps.inner,
                ),
            ),
    {
        let slots = self.layout_with_gaps(container, gaps);
        let mut i: usize = 0;
        while i < slots.len()
            invariant
                0 <= i <= slots.len(),
                self.tree() == old(self).tree().placed(slots@.take(i as int)),
            decreases slots.len() - i,
        {
            let (id, rect) = slots[i];
            let ghost before = self.tree();
            if let Some(view) = self.find_leaf_mut(id) {
                view.reflow_to_rect(rect);
            }
            i = i + 1;
            assert(slots@.take(i as int).drop_last() =~= slots@.take(i - 1));
        }
        assert(slots@.take(i as int) =~= slots@);
    }

    /// Reflows into a container at the origin.
    pub fn reflow_size(&mut self, size: Size)
        ensures
            final(self).tree() == old(self).tree().placed(
                old(self).tree().allocate(
                    (Rect { x: 0, y: 0, width: size.width, height: size.height }),
                    (Rect { x: 0, y: 0, width: size.width, height: size.height }),
                    0,
                ),
            ),
    {
        self.reflow(Rect::new(0, 0, size.width, size.height));
    }

    /// Reflows and returns the allocation of the reflowed tree.
    #[must_use]
    pub fn resize(&mut self, container: Rect) -> (slots: Vec<(ViewId, Rect)>)
        ensures
            final(self).tree() == old(self).tree().placed(
                old(self).tree().allocate(container, container, 0),
            ),
            slots@ == final(self).tree().allocate(container, container, 0),
    {
        proof {
            geometry::zero_inset_is_identity(container);
        }
        self.resize_with_gaps(container, Gaps::zero())
    }

    /// Reflows with gaps and returns the allocation of the reflowed tree.
    #[must_use]
    pub fn resize_with_gaps(&mut self, container: Rect, gaps: Gaps) -> (slots: Vec<(ViewId, Rect)>)
        ensures
            final(self).tree() == old(self).tree().placed(
                old(self).tree().allocate(
                    container,
                    geometry::inset(container, gaps.outer),
                    gaps.inner,
                ),
            ),
            slots@ == final(self).tree().allocate(
                container,
                geometry::inset(container, gaps.outer),
                gaps.inner,
            ),
    {
        self.reflow_with_gaps(container, gaps);
        self.layout_with_gaps(container, gaps)
    }

    /// True when the node is a leaf.
    #[must_use]
    pub fn is_leaf(&self) -> (leaf: bool)
        ensures
            leaf == (self.tree() is Leaf),
    {
        match self {
            LayoutNode::Leaf(_) => true,
            _ => false,
        }
    }

    /// Creates a leaf node.
    #[must_use]
    pub fn leaf(view: LeafView) -> (n: Self)
        ensures
            n.tree() == Tree::Leaf(view),
    {
        LayoutNode::Leaf(view)
    }

    /// Creates a split with the clamped ratio.
    #[must_use]
    pub fn split(axis: SplitAxis, ratio: Float32, first: LayoutNode, second: LayoutNode) -> (n: Self)
        ensures
            n.tree() == (Tree::Split {
                axis,
                ratio: float32::clamped_bits(ratio@),
                first: Box::new(first.tree()),
                second: Box::new(second.tree()),
            }),
    {
        LayoutNode::Split {
            axis,
            ratio: ratio.clamp_ratio(),
            first: Box::new(first),
            second: Box::new(second),
        }
    }

    /// Creates a stack. An empty stack has no leaves.
    #[must_use]
    pub fn stack(children: Vec<LayoutNode>) -> (n: Self)
        ensures
            n.tree() == Tree::Stack(LayoutNode::trees(children@)),
    {
        LayoutNode::Stack(children)
    }

    /// Creates an overlay at the default tier.
    #[must_use]
    pub fn overlay(base: LayoutNode, overlay: LayoutNode, bounds: Rect) -> (n: Self)
        ensures
            n.tree() == (Tree::Overlay {
                base: Box::new(base.tree()),
                overlay: Box::new(overlay.tree()),
                bounds,
                tier: OverlayTier::Float,
            }),
    {
        LayoutNode::overlay_tiered(base, overlay, bounds, OverlayTier::default())
    }

    /// Creates an overlay at an explicit tier.
    #[must_use]
    pub fn overlay_tiered(
        base: LayoutNode,
        overlay: LayoutNode,
        bounds: Rect,
        tier: OverlayTier,
    ) -> (n: Self)
        ensures
            n.tree() == (Tree::Overlay {
                base: Box::new(base.tree()),
                overlay: Box::new(overlay.tree()),
                bounds,
                tier,
            }),
    {
        LayoutNode::Overlay { base: Box::new(base), overlay: Box::new(overlay), bounds, tier }
    }

    /// The tier of an overlay node, `None` for any other node.
    #[must_use]
    pub fn overlay_tier(&self) -> (t: Option<OverlayTier>)
        ensures
            t == (match self.tree() {
                Tree::Overlay { tier, .. } => Some(tier),
                _ => None,
            }),
    {
        match self {
            LayoutNode::Overlay { tier, .. } => Some(*tier),
            _ => None,
        }
    }

    /// A structurally identical tree.
    fn duplicate(&self) -> (n: Self)
        ensures
            n.tree() == self.tree(),
        decreases self,
    {
        match self {
            LayoutNode::Leaf(v) => LayoutNode::Leaf(*v),
            LayoutNode::Split { axis, ratio, first, second } => LayoutNode::Split {
                axis: *axis,
                ratio: *ratio,
                first: Box::new(first.duplicate()),
                second: Box::new(second.duplicate()),
            },
            LayoutNode::Stack(children) => {
                let mut out: Vec<LayoutNode> = Vec::new();
                let mut i: usize = 0;
                while i < children.len()
                    invariant
                        0 <= i <= children.len(),
                        *self == LayoutNode::Stack(*children),
                        LayoutNode::trees(out@) == LayoutNode::trees(children@.take(i as int)),
                    decreases children.len() - i,
                {
                    proof {
                        LayoutNode::lemma_trees_step(children@, i as int);
                        LayoutNode::lemma_child_is_smaller(*self, i as int);
                    }
                    let ghost before = out@;
                    out.push(children[i].duplicate());
                    i = i + 1;
                    assert(out@.drop_last() =~= before);
                }
                assert(children@.take(i as int) =~= children@);
                LayoutNode::Stack(out)
            },
            LayoutNode::Overlay { base, overlay, bounds, tier } => LayoutNode::Overlay {
                base: Box::new(base.duplicate()),
                overlay: Box::new(overlay.duplicate()),
                bounds: *bounds,
                tier: *tier,
            },
        }
    }

    /// Creates a split whose axis follows the shape of `container`: wide
    /// containers split side by side, tall ones stacked, square and empty ones
    /// side by side.
    #[must_use]
    pub fn smart_split(
        container: Rect,
        ratio: Float32,
        first: LayoutNode,
        second: LayoutNode,
    ) -> (n: Self)
        ensures
            n.tree() == (Tree::Split {
                axis: smart_axis(container, float32::ONE_BITS),
                ratio: float32::clamped_bits(ratio@),
                first: Box::new(first.tree()),
                second: Box::new(second.tree()),
            }),
    {
        LayoutNode::smart_split_with_multiplier(
            container,
            ratio,
            first,
            second,
            Float32::from_bits(float32::ONE_BITS),
        )
    }

    /// Like [`LayoutNode::smart_split`], stacked when the container has cells
    /// and `height * width_multiplier > width`.
    #[must_use]
    pub fn smart_split_with_multiplier(
        container: Rect,
        ratio: Float32,
        first: LayoutNode,
        second: LayoutNode,
        width_multiplier: Float32,
    ) -> (n: Self)
        ensures
            n.tree() == (Tree::Split {
                axis: smart_axis(container, width_multiplier@),
                ratio: float32::clamped_bits(ratio@),
                first: Box::new(first.tree()),
                second: Box::new(second.tree()),
            }),
    {
        LayoutNode::split(smart_split_axis(container, width_multiplier), ratio, first, second)
    }

    /// Composes `base` with floating `layers`: lowest tier innermost, layers
    /// of one tier in the given order. Without layers the result is `base`.
    #[must_use]
    pub fn overlay_stack(base: LayoutNode, layers: Vec<OverlayLayer>) -> (n: Self)
        ensures
            n.tree() == overlaid(
                base.tree(),
                tier_sorted(layers@.map_values(|l: OverlayLayer| l.sheet())),
            ),
    {
        let ghost sheets = layers@.map_values(|l: OverlayLayer| l.sheet());
        let mut editor: Vec<OverlayLayer> = Vec::new();
        let mut float: Vec<OverlayLayer> = Vec::new();
        let mut popup: Vec<OverlayLayer> = Vec::new();
        let mut messages: Vec<OverlayLayer> = Vec::new();
        for layer in it: layers
            invariant
                it.seq() == layers@,
                sheets == layers@.map_values(|l: OverlayLayer| l.sheet()),
                sheets_of(editor@) == of_tier(sheets.take(it.index() as int), OverlayTier::Editor),
                sheets_of(float@) == of_tier(sheets.take(it.index() as int), OverlayTier::Float),
                sheets_of(popup@) == of_tier(sheets.take(it.index() as int), OverlayTier::Popup),
                sheets_of(messages@) == of_tier(
                    sheets.take(it.index() as int),
                    OverlayTier::Messages,
                ),
        {
            proof {
                let k = it.index() as int;
                assert(sheets.take(k + 1).drop_last() =~= sheets.take(k));
                assert(sheets.take(k + 1).last() == layer.sheet());
                lemma_sheets_push(editor@, layer);
                lemma_sheets_push(float@, layer);
                lemma_sheets_push(popup@, layer);
                lemma_sheets_push(messages@, layer);
            }
            match layer.tier {
                OverlayTier::Editor => editor.push(layer),
                OverlayTier::Float => float.push(layer),
                OverlayTier::Popup => popup.push(layer),
                OverlayTier::Messages => messages.push(layer),
            }
        }
        assert(sheets.take(sheets.len() as int) =~= sheets);
        let ghost e = sheets_of(editor@);
        let ghost f = sheets_of(float@);
        let ghost p = sheets_of(popup@);
        let ghost m = sheets_of(messages@);
        proof {
            overlaid_in_runs(base.tree(), e, f);
            overlaid_in_runs(base.tree(), e + f, p);
            overlaid_in_runs(base.tree(), e + f + p, m);
        }
        let a = LayoutNode::overlay_run(base, editor);
        let b = LayoutNode::overlay_run(a, float);
        let c = LayoutNode::overlay_run(b, popup);
        LayoutNode::overlay_run(c, messages)
    }

    fn overlay_run(base: LayoutNode, layers: Vec<OverlayLayer>) -> (n: Self)
        ensures
            n.tree() == overlaid(base.tree(), sheets_of(layers@)),
    {
        let ghost start = base.tree();
        let ghost sheets = sheets_of(layers@);
        let mut node = base;
        for layer in it: layers
            invariant
                it.seq() == layers@,
                sheets == sheets_of(layers@),
                node.tree() == overlaid(start, sheets.take(it.index() as int)),
        {
            proof {
                let k = it.index() as int;
                assert(sheets.take(k + 1).drop_last() =~= sheets.take(k));
                assert(sheets.take(k + 1).last() == layer.sheet());
            }
            node = LayoutNode::overlay_tiered(node, layer.node, layer.bounds, layer.tier);
        }
        assert(sheets.take(sheets.len() as int) =~= sheets);
        node
    }
}

impl Clone for LayoutNode {
    fn clone(&self) -> (n: Self)
        ensures
            n.tree() == self.tree(),
    {
        self.duplicate()
    }
}

/// What a list of layers adds to a base.
pub open spec fn sheets_of(layers: Seq<OverlayLayer>) -> Seq<(OverlayTier, Tree, Rect)> {
    layers.map_values(|l: OverlayLayer| l.sheet())
}

proof fn lemma_sheets_push(layers: Seq<OverlayLayer>, layer: OverlayLayer)
    ensures
        sheets_of(layers.push(layer)) == sheets_of(layers).push(layer.sheet()),
{
    assert(sheets_of(layers.push(layer)) =~= sheets_of(layers).push(layer.sheet()));
}

/// The layers of one tier, in the given order.
pub open spec fn of_tier(
    sheets: Seq<(OverlayTier, Tree, Rect)>,
    tier: OverlayTier,
) -> Seq<(OverlayTier, Tree, Rect)>
    decreases sheets.len(),
{
    if sheets.len() == 0 {
        Seq::empty()
    } else if sheets.last().0 == tier {
        of_tier(sheets.drop_last(), tier).push(sheets.last())
    } else {
        of_tier(sheets.drop_last(), tier)
    }
}

/// The layers by tier, lowest first, and in the given order within a tier.
pub open spec fn tier_sorted(sheets: Seq<(OverlayTier, Tree, Rect)>) -> Seq<
    (OverlayTier, Tree, Rect),
> {
    of_tier(sheets, OverlayTier::Editor) + of_tier(sheets, OverlayTier::Float) + of_tier(
        sheets,
        OverlayTier::Popup,
    ) + of_tier(sheets, OverlayTier::Messages)
}

/// No layer stands before a layer of a lower tier.
pub open spec fn tiers_ascend(sheets: Seq<(OverlayTier, Tree, Rect)>) -> bool {
    forall|i: int, j: int|
        0 <= i < j < sheets.len() ==> tier_rank((#[trigger] sheets[i]).0) <= tier_rank(
            (#[trigger] sheets[j]).0,
        )
}

proof fn of_tier_is_of_tier(sheets: Seq<(OverlayTier, Tree, Rect)>, tier: OverlayTier)
    ensures
        forall|i: int|
            0 <= i < of_tier(sheets, tier).len() ==> (#[trigger] of_tier(sheets, tier)[i]).0
                == tier,
    decreases sheets.len(),
{
    if sheets.len() > 0 {
        of_tier_is_of_tier(sheets.drop_last(), tier);
    }
}

/// The layers come out in tier order, and no layer is lost or added.
pub proof fn layers_compose_in_tier_order(sheets: Seq<(OverlayTier, Tree, Rect)>)
    ensures
        tiers_ascend(tier_sorted(sheets)),
        tier_sorted(sheets).to_multiset() == sheets.to_multiset(),
    decreases sheets.len(),
{
    of_tier_is_of_tier(sheets, OverlayTier::Editor);
    of_tier_is_of_tier(sheets, OverlayTier::Float);
    of_tier_is_of_tier(sheets, OverlayTier::Popup);
    of_tier_is_of_tier(sheets, OverlayTier::Messages);
    tier_sorted_multiset(sheets);
}

proof fn tier_sorted_multiset(sheets: Seq<(OverlayTier, Tree, Rect)>)
    ensures
        tier_sorted(sheets).to_multiset() == sheets.to_multiset(),
    decreases sheets.len(),
{
    broadcast use vstd::seq_lib::group_to_multiset_ensures;

    let e = of_tier(sheets, OverlayTier::Editor);
    let f = of_tier(sheets, OverlayTier::Float);
    let p = of_tier(sheets, OverlayTier::Popup);
    let m = of_tier(sheets, OverlayTier::Messages);
    vstd::seq_lib::lemma_multiset_commutative(e, f);
    vstd::seq_lib::lemma_multiset_commutative(e + f, p);
    vstd::seq_lib::lemma_multiset_commutative(e + f + p, m);
    if sheets.len() == 0 {
        assert(tier_sorted(sheets) =~= sheets);
    } else {
        let before = sheets.drop_last();
        tier_sorted_multiset(before);
        assert(before.push(sheets.last()) =~= sheets);
        let e0 = of_tier(before, OverlayTier::Editor);
        let f0 = of_tier(before, OverlayTier::Float);
        let p0 = of_tier(before, OverlayTier::Popup);
        let m0 = of_tier(before, OverlayTier::Messages);
        vstd::seq_lib::lemma_multiset_commutative(e0, f0);
        vstd::seq_lib::lemma_multiset_commutative(e0 + f0, p0);
        vstd::seq_lib::lemma_multiset_commutative(e0 + f0 + p0, m0);
        assert(tier_sorted(sheets).to_multiset() =~= tier_sorted(before).to_multiset().insert(
            sheets.last(),
        ));
    }
}

/// Layers of one tier keep their order: the layers of a tier within the
/// composed order are the layers of that tier within the given order.
pub proof fn layers_of_one_tier_keep_their_order(
    sheets: Seq<(OverlayTier, Tree, Rect)>,
    tier: OverlayTier,
)
    ensures
        of_tier(tier_sorted(sheets), tier) == of_tier(sheets, tier),
{
    let e = of_tier(sheets, OverlayTier::Editor);
    let f = of_tier(sheets, OverlayTier::Float);
    let p = of_tier(sheets, OverlayTier::Popup);
    let m = of_tier(sheets, OverlayTier::Messages);
    of_tier_of_run(sheets, OverlayTier::Editor, tier);
    of_tier_of_run(sheets, OverlayTier::Float, tier);
    of_tier_of_run(sheets, OverlayTier::Popup, tier);
    of_tier_of_run(sheets, OverlayTier::Messages, tier);
    of_tier_of_runs(e, f, tier);
    of_tier_of_runs(e + f, p, tier);
    of_tier_of_runs(e + f + p, m, tier);
    assert(of_tier(tier_sorted(sheets), tier) =~= of_tier(sheets, tier));
}

proof fn of_tier_of_run(sheets: Seq<(OverlayTier, Tree, Rect)>, own: OverlayTier, tier: OverlayTier)
    ensures
        of_tier(of_tier(sheets, own), tier) == (if own == tier {
            of_tier(sheets, own)
        } else {
            Seq::empty()
        }),
    decreases sheets.len(),
{
    if sheets.len() > 0 {
        of_tier_of_run(sheets.drop_last(), own, tier);
        let before = of_tier(sheets.drop_last(), own);
        if sheets.last().0 == own {
            assert(before.push(sheets.last()).drop_last() =~= before);
        }
    }
}

proof fn of_tier_of_runs(
    a: Seq<(OverlayTier, Tree, Rect)>,
    b: Seq<(OverlayTier, Tree, Rect)>,
    tier: OverlayTier,
)
    ensures
        of_tier(a + b, tier) == of_tier(a, tier) + of_tier(b, tier),
    decreases b.len(),
{
    if b.len() == 0 {
        assert(a + b =~= a);
        assert(of_tier(a, tier) + of_tier(b, tier) =~= of_tier(a, tier));
    } else {
        assert((a + b).drop_last() =~= a + b.drop_last());
        of_tier_of_runs(a, b.drop_last(), tier);
        assert(of_tier(a + b, tier) =~= of_tier(a, tier) + of_tier(b, tier));
    }
}

/// `base` with the layers nested over it, the first one innermost.
pub open spec fn overlaid(base: Tree, sheets: Seq<(OverlayTier, Tree, Rect)>) -> Tree
    decreases sheets.len(),
{
    if sheets.len() == 0 {
        base
    } else {
        let (tier, node, bounds) = sheets.last();
        Tree::Overlay {
            base: Box::new(overlaid(base, sheets.drop_last())),
            overlay: Box::new(node),
            bounds,
            tier,
        }
    }
}

/// Nesting two runs of layers is nesting one after the other.
pub proof fn overlaid_in_runs(
    base: Tree,
    a: Seq<(OverlayTier, Tree, Rect)>,
    b: Seq<(OverlayTier, Tree, Rect)>,
)
    ensures
        overlaid(base, a + b) == overlaid(overlaid(base, a), b),
    decreases b.len(),
{
    if b.len() == 0 {
        assert(a + b =~= a);
    } else {
        assert((a + b).drop_last() =~= a + b.drop_last());
        overlaid_in_runs(base, a, b.drop_last());
    }
}

/// The axis for a container: stacked when it has cells and the
/// single-precision product of height and multiplier exceeds the width. A
/// multiplier that is not a finite positive number counts as `1.0`.
pub open spec fn smart_axis(container: Rect, multiplier: u32) -> SplitAxis {
    let m = if float32::is_positive(multiplier) {
        multiplier
    } else {
        float32::ONE_BITS
    };
    if container.width > 0 && container.height > 0 && float32::product_exceeds(
        container.height as nat,
        m,
        container.width as nat,
    ) {
        SplitAxis::Vertical
    } else {
        SplitAxis::Horizontal
    }
}

/// Picks a split axis from the shape of `container`.
#[must_use]
pub fn smart_split_axis(container: Rect, width_multiplier: Float32) -> (axis: SplitAxis)
    ensures
        axis == smart_axis(container, width_multiplier@),
{
    let mult = if width_multiplier.is_positive() {
        width_multiplier
    } else {
        Float32::from_bits(float32::ONE_BITS)
    };
    if !container.is_empty() && mult.product_is_above(container.height, container.width) {
        SplitAxis::Vertical
    } else {
        SplitAxis::Horizontal
    }
}

/// Clamps a raw ratio to `[0.10, 0.90]`, and an infinity or a NaN to `0.5`.
#[must_use]
pub fn clamp_ratio(raw: Float32) -> (r: Float32)
    ensures
        r@ == float32::clamped_bits(raw@),
{
    raw.clamp_ratio()
}

/// Places an overlay: carries its container-local bounds into the container
/// and clips them to `bounds`.
pub(crate) fn clip_overlay(desired: Rect, container: Rect, bounds: Rect) -> (r: Rect)
    ensures
        r == tree::overlay_rect(desired, container, bounds),
{
    let carried = Rect {
        x: container.x.saturating_add(desired.x),
        y: container.y.saturating_add(desired.y),
        width: desired.width,
        height: desired.height,
    };
    match carried.clip_to(bounds) {
        Some(inter) => inter,
        None => Rect::zero(),
    }
}

/// Divides a span of `total` cells at `start`: the length of the first child,
/// the start of the second child, and its length.
fn split_span(start: u16, total: u16, ratio: Float32, gap_in: u16) -> (s: (u16, u16, u16))
    ensures
        s.0 == tree::split_spans(total as int, ratio@, gap_in as int).0,
        s.1 == geometry::saturate16(
            start + tree::split_spans(total as int, ratio@, gap_in as int).0 + tree::split_spans(
                total as int,
                ratio@,
                gap_in as int,
            ).1,
        ),
        s.2 == tree::split_spans(total as int, ratio@, gap_in as int).2,
{
    if total < 2 {
        return (total, start.saturating_add(total), 0);
    }
    let gap: u16 = if gap_in <= total - 1 {
        gap_in
    } else {
        (total - 1) as u16
    };
    let avail: u16 = total - gap;
    if avail < 2 {
        return (1, start.saturating_add(1).saturating_add(gap), 0);
    }
    let r = clamp_ratio(ratio);
    proof {
        float32::clamping_is_idempotent(ratio@);
    }
    let raw: u32 = r.floor_of_product(avail);
    let first: u16 = if raw < 1 {
        1
    } else if raw > (avail - 1) as u32 {
        avail - 1
    } else {
        raw as u16
    };
    (first, start.saturating_add(first).saturating_add(gap), avail - first)
}

/// Deterministic split of `bounds` without a gap.
#[must_use]
pub fn split_rect(bounds: Rect, axis: SplitAxis, ratio: Float32) -> (parts: (Rect, Rect))
    ensures
        parts == tree::split_rects(bounds, axis, ratio@, 0),
{
    split_rect_with_gap(bounds, axis, ratio, 0)
}

/// Deterministic split of `bounds` with a band of `gap_in` cells between the
/// children. The ratio applies to what the band leaves; oversized bands
/// collapse the second child, empty bounds yield zero rectangles.
#[must_use]
pub fn split_rect_with_gap(bounds: Rect, axis: SplitAxis, ratio: Float32, gap_in: u16) -> (parts: (
    Rect,
    Rect,
))
    ensures
        parts == tree::split_rects(bounds, axis, ratio@, gap_in),
{
    if bounds.is_empty() {
        return (Rect::zero(), Rect::zero());
    }
    match axis {
        SplitAxis::Horizontal => {
            let (first, at, second) = split_span(bounds.x, bounds.width, ratio, gap_in);
            (
                Rect::new(bounds.x, bounds.y, first, bounds.height),
                Rect::new(at, bounds.y, second, bounds.height),
            )
        },
        SplitAxis::Vertical => {
            let (first, at, second) = split_span(bounds.y, bounds.height, ratio, gap_in);
            (
                Rect::new(bounds.x, bounds.y, bounds.width, first),
                Rect::new(bounds.x, at, bounds.width, second),
            )
        },
    }
}

/// Length of the overlap of two half-open spans.
#[must_use]
pub fn overlap_len(a_start: u32, a_len: u32, b_start: u32, b_len: u32) -> (n: u32)
    requires
        a_start + a_len <= u32::MAX,
        b_start + b_len <= u32::MAX,
    ensures
        n == geometry::overlap(a_start as int, a_len as int, b_start as int, b_len as int),
{
    let a_end: u32 = a_start + a_len;
    let b_end: u32 = b_start + b_len;
    let left: u32 = if a_start >= b_start {
        a_start
    } else {
        b_start
    };
    let right: u32 = if a_end <= b_end {
        a_end
    } else {
        b_end
    };
    right.saturating_sub(left)
}

} // verus!
