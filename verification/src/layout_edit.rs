//! Structural edits of a layout tree: docking, detaching and moving leaves,
//! dragging dividers and hit testing.

use crate::float32;
use crate::float32::Float32;
use crate::geometry;
use crate::geometry::{Gaps, Point, Rect, SplitAxis};
use crate::layout::LayoutNode;
use crate::tree;
use crate::tree::Tree;
use crate::view::{LeafView, ViewId};
use vstd::prelude::*;

verus! {

impl LayoutNode {
    proof fn lemma_graft_in(nodes: Seq<LayoutNode>, i: int, n: int, id: ViewId, part: Tree)
        requires
            0 <= i < n <= nodes.len(),
            nodes[i].tree().has(id),
            tree::first_view(Tree::leaves_of(LayoutNode::trees(nodes.take(i))), id) is None,
        ensures
            Tree::graft_in(LayoutNode::trees(nodes.take(n)), id, part) == LayoutNode::trees(
                nodes.take(n),
            ).update(i, nodes[i].tree().graft(id, part)),
            tree::first_view(Tree::leaves_of(LayoutNode::trees(nodes.take(n))), id)
                == tree::first_view(nodes[i].tree().leaves(), id),
        decreases n,
    {
        LayoutNode::trees_index(nodes.take(n));
        LayoutNode::trees_index(nodes.take(n - 1));
        LayoutNode::lemma_trees_step(nodes, n - 1);
        tree::first_view_of_runs(
            Tree::leaves_of(LayoutNode::trees(nodes.take(n - 1))),
            nodes[n - 1].tree().leaves(),
            id,
        );
        if i < n - 1 {
            LayoutNode::lemma_graft_in(nodes, i, n - 1, id, part);
        }
        assert(Tree::graft_in(LayoutNode::trees(nodes.take(n)), id, part) =~= LayoutNode::trees(
            nodes.take(n),
        ).update(i, nodes[i].tree().graft(id, part)));
    }

    proof fn lemma_without_in(nodes: Seq<LayoutNode>, i: int, n: int, id: ViewId)
        requires
            0 <= i < n <= nodes.len(),
            nodes[i].tree().has(id),
            tree::first_view(Tree::leaves_of(LayoutNode::trees(nodes.take(i))), id) is None,
        ensures
            Tree::without_in(LayoutNode::trees(nodes.take(n)), id) == (match nodes[i].tree().without(
                id,
            ) {
                None => LayoutNode::trees(nodes.take(n)).remove(i),
                Some(t) => LayoutNode::trees(nodes.take(n)).update(i, t),
            }),
            tree::first_view(Tree::leaves_of(LayoutNode::trees(nodes.take(n))), id)
                == tree::first_view(nodes[i].tree().leaves(), id),
        decreases n,
    {
        LayoutNode::trees_index(nodes.take(n));
        LayoutNode::trees_index(nodes.take(n - 1));
        LayoutNode::lemma_trees_step(nodes, n - 1);
        tree::first_view_of_runs(
            Tree::leaves_of(LayoutNode::trees(nodes.take(n - 1))),
            nodes[n - 1].tree().leaves(),
            id,
        );
        if i < n - 1 {
            LayoutNode::lemma_without_in(nodes, i, n - 1, id);
        }
        let all = LayoutNode::trees(nodes.take(n));
        match nodes[i].tree().without(id) {
            None => assert(Tree::without_in(all, id) =~= all.remove(i)),
            Some(t) => assert(Tree::without_in(all, id) =~= all.update(i, t)),
        }
    }

    /// Exchanges the first leaf `id` for `part`.
    fn graft_node(&mut self, id: ViewId, part: LayoutNode)
        requires
            old(self).tree().has(id),
        ensures
            final(self).tree() == old(self).tree().graft(id, part.tree()),
        decreases *old(self),
    {
        match self {
            LayoutNode::Leaf(v) => {
                proof {
                    tree::first_view_of_one(*v, id);
                }
                *self = part;
            },
            LayoutNode::Split { first, second, .. } => {
                proof {
                    tree::first_view_of_runs(first.tree().leaves(), second.tree().leaves(), id);
                }
                if first.find_leaf(id).is_some() {
                    first.graft_node(id, part);
                } else {
                    second.graft_node(id, part);
                }
            },
            LayoutNode::Stack(children) => {
                let ghost nodes = children@;
                assert(nodes.take(nodes.len() as int) =~= nodes);
                assert(old(self).tree() == Tree::Stack(LayoutNode::trees(nodes)));
                if let Some(i) = LayoutNode::child_with(children, id) {
                    proof {
                        LayoutNode::lemma_child_is_smaller(*old(self), i as int);
                        LayoutNode::lemma_graft_in(
                            nodes,
                            i as int,
                            nodes.len() as int,
                            id,
                            part.tree(),
                        );
                    }
                    let child: &mut LayoutNode = &mut children[i];
                    child.graft_node(id, part);
                    proof {
                        LayoutNode::lemma_trees_update(nodes, i as int, children@[i as int]);
                        assert(children@ == nodes.update(i as int, children@[i as int]));
                    }
                }
            },
            LayoutNode::Overlay { base, overlay, .. } => {
                proof {
                    tree::first_view_of_runs(base.tree().leaves(), overlay.tree().leaves(), id);
                }
                if base.find_leaf(id).is_some() {
                    base.graft_node(id, part);
                } else {
                    overlay.graft_node(id, part);
                }
            },
        }
    }

    /// What remains when the first leaf `id` is taken out.
    fn detached(self, id: ViewId) -> (rest: Option<LayoutNode>)
        ensures
            match rest {
                Some(n) => self.tree().without(id) == Some(n.tree()),
                None => self.tree().without(id) is None,
            },
        decreases self,
    {
        if self.find_leaf(id).is_none() {
            return Some(self);
        }
        match self {
            LayoutNode::Leaf(_) => None,
            LayoutNode::Split { axis, ratio, first, second } => {
                proof {
                    tree::first_view_of_runs(first.tree().leaves(), second.tree().leaves(), id);
                }
                if first.find_leaf(id).is_some() {
                    match (*first).detached(id) {
                        None => Some(*second),
                        Some(n) => Some(LayoutNode::Split { axis, ratio, first: Box::new(n), second }),
                    }
                } else {
                    match (*second).detached(id) {
                        None => Some(*first),
                        Some(n) => Some(LayoutNode::Split { axis, ratio, first, second: Box::new(n) }),
                    }
                }
            },
            LayoutNode::Stack(children) => {
                let ghost nodes = children@;
                assert(nodes.take(nodes.len() as int) =~= nodes);
                let mut rest = children;
                match LayoutNode::child_with(&rest, id) {
                    None => None,
                    Some(i) => {
                        proof {
                            LayoutNode::lemma_child_is_smaller(self, i as int);
                            LayoutNode::lemma_without_in(nodes, i as int, nodes.len() as int, id);
                            LayoutNode::trees_index(nodes);
                        }
                        let child = rest.remove(i);
                        match child.detached(id) {
                            None => {},
                            Some(n) => {
                                rest.insert(i, n);
                            },
                        }
                        proof {
                            LayoutNode::trees_index(rest@);
                            assert(LayoutNode::trees(rest@) =~= Tree::without_in(
                                LayoutNode::trees(nodes),
                                id,
                            ));
                        }
                        if rest.len() == 0 {
                            None
                        } else {
                            Some(LayoutNode::Stack(rest))
                        }
                    },
                }
            },
            LayoutNode::Overlay { base, overlay, bounds, tier } => {
                proof {
                    tree::first_view_of_runs(base.tree().leaves(), overlay.tree().leaves(), id);
                }
                if base.find_leaf(id).is_some() {
                    match (*base).detached(id) {
                        None => Some(*overlay),
                        Some(n) => Some(
                            LayoutNode::Overlay { base: Box::new(n), overlay, bounds, tier },
                        ),
                    }
                } else {
                    match (*overlay).detached(id) {
                        None => Some(*base),
                        Some(n) => Some(
                            LayoutNode::Overlay { base, overlay: Box::new(n), bounds, tier },
                        ),
                    }
                }
            },
        }
    }

    /// Takes the first leaf `id` out of the tree and returns it. The sibling
    /// takes the place of a split or an overlay that loses a child; a tree
    /// that loses its only leaf becomes an empty stack.
    pub fn remove_leaf(&mut self, id: ViewId) -> (removed: Option<LeafView>)
        ensures
            removed == tree::first_view(old(self).tree().leaves(), id),
            final(self).tree() == (if removed is Some {
                old(self).tree().pruned(id)
            } else {
                old(self).tree()
            }),
    {
        let view: LeafView = match self.find_leaf(id) {
            Some(v) => *v,
            None => {
                return None;
            },
        };
        let nothing: Vec<LayoutNode> = Vec::new();
        assert(LayoutNode::trees(nothing@) =~= Seq::empty());
        let mut node = LayoutNode::Stack(nothing);
        std::mem::swap(self, &mut node);
        match node.detached(id) {
            Some(rest) => {
                *self = rest;
            },
            None => {},
        }
        Some(view)
    }

    /// Docks `view` to the first leaf `target`: a split along `axis` takes
    /// that leaf's place, with the new leaf after or before it. Returns
    /// `false` and changes nothing when there is no such leaf.
    pub fn insert_beside(
        &mut self,
        target: ViewId,
        view: &LeafView,
        axis: SplitAxis,
        ratio: Float32,
        after: bool,
    ) -> (docked: bool)
        ensures
            docked == old(self).tree().has(target),
            final(self).tree() == old(self).tree().beside(target, *view, axis, ratio@, after),
    {
        let anchor: LeafView = match self.find_leaf(target) {
            Some(v) => *v,
            None => {
                return false;
            },
        };
        let part = if after {
            LayoutNode::split(axis, ratio, LayoutNode::leaf(anchor), LayoutNode::leaf(*view))
        } else {
            LayoutNode::split(axis, ratio, LayoutNode::leaf(*view), LayoutNode::leaf(anchor))
        };
        self.graft_node(target, part);
        true
    }

    /// Moves the first leaf `src` beside the first leaf `target`. Returns
    /// `false` and changes nothing when the two are the same or one of them is
    /// missing.
    pub fn reparent_leaf(
        &mut self,
        src: ViewId,
        target: ViewId,
        axis: SplitAxis,
        ratio: Float32,
        after: bool,
    ) -> (moved: bool)
        ensures
            moved == can_reparent(old(self).tree(), src, target),
            final(self).tree() == (if moved {
                reparented(old(self).tree(), src, target, axis, ratio@, after)
            } else {
                old(self).tree()
            }),
    {
        if src == target || self.find_leaf(src).is_none() || self.find_leaf(target).is_none() {
            return false;
        }
        if let Some(view) = self.remove_leaf(src) {
            let _docked: bool = self.insert_beside(target, &view, axis, ratio, after);
        }
        true
    }

    /// The topmost leaf whose allocation covers `point`.
    #[must_use]
    pub fn hit_test_leaf(&self, bounds: Rect, gaps: Gaps, point: Point) -> (hit: Option<ViewId>)
        ensures
            hit == tree::top_hit(
                self.tree().allocate(bounds, geometry::inset(bounds, gaps.outer), gaps.inner),
                point,
            ),
    {
        let slots = self.layout_with_gaps(bounds, gaps);
        let mut i: usize = slots.len();
        assert(slots@.take(i as int) =~= slots@);
        while i > 0
            invariant
                0 <= i <= slots.len(),
                slots@ == self.tree().allocate(
                    bounds,
                    geometry::inset(bounds, gaps.outer),
                    gaps.inner,
                ),
                tree::top_hit(slots@, point) == tree::top_hit(slots@.take(i as int), point),
            decreases i,
        {
            assert(slots@.take(i as int).drop_last() =~= slots@.take(i - 1));
            i = i - 1;
            let (id, rect) = slots[i];
            if rect.contains_point(point) {
                return Some(id);
            }
        }
        None
    }

    /// The ratio of the split at `path`.
    #[must_use]
    pub fn split_ratio_at(&self, path: &[usize]) -> (ratio: Option<Float32>)
        ensures
            match ratio {
                Some(r) => self.tree().ratio_at(path@) == Some(r@),
                None => self.tree().ratio_at(path@) is None,
            },
    {
        assert(path@.skip(0) =~= path@);
        self.ratio_from(path, 0)
    }

    fn ratio_from(&self, path: &[usize], at: usize) -> (ratio: Option<Float32>)
        requires
            at <= path@.len(),
        ensures
            match ratio {
                Some(r) => self.tree().ratio_at(path@.skip(at as int)) == Some(r@),
                None => self.tree().ratio_at(path@.skip(at as int)) is None,
            },
        decreases self,
    {
        if at == path.len() {
            return match self {
                LayoutNode::Split { ratio, .. } => Some(*ratio),
                _ => None,
            };
        }
        let step: usize = path[at];
        assert(path@.skip(at as int).drop_first() =~= path@.skip(at + 1));
        match self {
            LayoutNode::Leaf(_) => None,
            LayoutNode::Split { first, second, .. } => {
                if step == 0 {
                    first.ratio_from(path, at + 1)
                } else if step == 1 {
                    second.ratio_from(path, at + 1)
                } else {
                    None
                }
            },
            LayoutNode::Stack(children) => {
                proof {
                    LayoutNode::trees_index(children@);
                }
                if step < children.len() {
                    proof {
                        LayoutNode::lemma_child_is_smaller(*self, step as int);
                    }
                    children[step].ratio_from(path, at + 1)
                } else {
                    None
                }
            },
            LayoutNode::Overlay { base, overlay, .. } => {
                if step == 0 {
                    base.ratio_from(path, at + 1)
                } else if step == 1 {
                    overlay.ratio_from(path, at + 1)
                } else {
                    None
                }
            },
        }
    }

    /// Drags the divider of the split at `path` by `delta_cells` of
    /// `total_cells`. Returns `false` and changes nothing when no split is
    /// there or there are no cells to divide.
    pub fn resize_split_by_drag(
        &mut self,
        path: &[usize],
        delta_cells: i32,
        total_cells: u16,
    ) -> (resized: bool)
        ensures
            resized == (total_cells > 0 && old(self).tree().ratio_at(path@) is Some),
            final(self).tree() == (if resized {
                drag_resized(old(self).tree(), path@, delta_cells as int, total_cells as nat)
            } else {
                old(self).tree()
            }),
    {
        if total_cells == 0 {
            return false;
        }
        match self.split_ratio_at(path) {
            None => false,
            Some(r) => {
                let dragged = r.dragged(delta_cells, total_cells);
                self.set_split_ratio_at(path, dragged)
            },
        }
    }
}

/// The leaf `src` can be docked to the leaf `target`.
pub open spec fn can_reparent(t: Tree, src: ViewId, target: ViewId) -> bool {
    src != target && t.has(src) && t.has(target)
}

/// The tree after the first leaf `src` has moved beside the first leaf
/// `target`.
pub open spec fn reparented(
    t: Tree,
    src: ViewId,
    target: ViewId,
    axis: SplitAxis,
    ratio: u32,
    after: bool,
) -> Tree {
    t.pruned(src).beside(
        target,
        tree::first_view(t.leaves(), src)->Some_0,
        axis,
        ratio,
        after,
    )
}

/// The tree after the divider of the split at `path` has been dragged.
pub open spec fn drag_resized(t: Tree, path: Seq<usize>, delta: int, total: nat) -> Tree {
    t.with_ratio_at(
        path,
        float32::clamped_bits(
            float32::dragged_bits(t.ratio_at(path)->Some_0, delta, total),
        ),
    )
}

} // verus!
