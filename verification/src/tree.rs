//! The mathematical model of a layout tree: what its leaves are and how the
//! solver allocates rectangles to them.

use crate::geometry;
use crate::geometry::{Point, Rect, SplitAxis};
use crate::layout::OverlayTier;
use crate::float32;
use crate::view::{LeafView, ViewId};
use vstd::prelude::*;

verus! {

/// A layout tree as a value. Ratios are single-precision bit patterns.
pub enum Tree {
    /// One leaf view.
    Leaf(LeafView),
    /// Two children side by side or stacked.
    Split { axis: SplitAxis, ratio: u32, first: Box<Tree>, second: Box<Tree> },
    /// Children that share the same bounds, the last one on top.
    Stack(Seq<Tree>),
    /// A base and an overlay clipped to the container.
    Overlay { base: Box<Tree>, overlay: Box<Tree>, bounds: Rect, tier: OverlayTier },
}

/// How a split divides `total` cells: the first child, the band between the
/// children, and the second child.
pub open spec fn split_spans(total: int, ratio: u32, gap_in: int) -> (int, int, int) {
    if total < 2 {
        (total, 0, 0)
    } else {
        let gap = geometry::min_int(gap_in, total - 1);
        let avail = total - gap;
        if avail < 2 {
            (1, gap, 0)
        } else {
            let raw = float32::product_floor(avail as nat, float32::clamped_bits(ratio)) as int;
            let first = geometry::clamp_int(raw, 1, avail - 1);
            (first, gap, avail - first)
        }
    }
}

/// The two rectangles of a split of `bounds`, `gap_in` cells apart.
pub open spec fn split_rects(bounds: Rect, axis: SplitAxis, ratio: u32, gap_in: u16) -> (Rect, Rect) {
    if bounds.vacant() {
        (geometry::zero_rect(), geometry::zero_rect())
    } else {
        match axis {
            SplitAxis::Horizontal => {
                let (first, gap, second) = split_spans(bounds.width as int, ratio, gap_in as int);
                (
                    Rect { x: bounds.x, y: bounds.y, width: first as u16, height: bounds.height },
                    Rect {
                        x: geometry::saturate16(bounds.x + first + gap) as u16,
                        y: bounds.y,
                        width: second as u16,
                        height: bounds.height,
                    },
                )
            },
            SplitAxis::Vertical => {
                let (first, gap, second) = split_spans(bounds.height as int, ratio, gap_in as int);
                (
                    Rect { x: bounds.x, y: bounds.y, width: bounds.width, height: first as u16 },
                    Rect {
                        x: bounds.x,
                        y: geometry::saturate16(bounds.y + first + gap) as u16,
                        width: bounds.width,
                        height: second as u16,
                    },
                )
            },
        }
    }
}

/// The rectangle that container-local bounds stand for: they count from the
/// upper left corner of the container.
pub open spec fn carried_into(desired: Rect, container: Rect) -> Rect {
    Rect {
        x: geometry::saturate16(container.x + desired.x) as u16,
        y: geometry::saturate16(container.y + desired.y) as u16,
        width: desired.width,
        height: desired.height,
    }
}

/// Where an overlay with the desired container-local bounds goes: the part
/// inside `bounds`, or the zero rectangle when nothing of it is inside.
pub open spec fn overlay_rect(desired: Rect, container: Rect, bounds: Rect) -> Rect {
    match carried_into(desired, container).common(bounds) {
        Some(r) => r,
        None => geometry::zero_rect(),
    }
}

/// The last slot that covers the cell belongs to the view on top.
pub open spec fn top_hit(slots: Seq<(ViewId, Rect)>, cell: Point) -> Option<ViewId>
    decreases slots.len(),
{
    if slots.len() == 0 {
        None
    } else if slots.last().1.covers(cell.x as int, cell.y as int) {
        Some(slots.last().0)
    } else {
        top_hit(slots.drop_last(), cell)
    }
}

/// The first view with the given id.
pub open spec fn first_view(views: Seq<LeafView>, id: ViewId) -> Option<LeafView>
    decreases views.len(),
{
    if views.len() == 0 {
        None
    } else if first_view(views.drop_last(), id) is Some {
        first_view(views.drop_last(), id)
    } else if views.last().key() == id {
        Some(views.last())
    } else {
        None
    }
}

/// The first view of two runs is in the first run if one is there.
pub proof fn first_view_of_runs(a: Seq<LeafView>, b: Seq<LeafView>, id: ViewId)
    ensures
        first_view(a + b, id) == (if first_view(a, id) is Some {
            first_view(a, id)
        } else {
            first_view(b, id)
        }),
    decreases b.len(),
{
    if b.len() == 0 {
        assert(a + b =~= a);
    } else {
        assert((a + b).drop_last() =~= a + b.drop_last());
        first_view_of_runs(a, b.drop_last(), id);
    }
}

/// A run of one view.
pub proof fn first_view_of_one(v: LeafView, id: ViewId)
    ensures
        first_view(seq![v], id) == (if v.key() == id {
            Some(v)
        } else {
            None
        }),
{
    reveal_with_fuel(first_view, 2);
}

impl Tree {
    /// The leaves, depth first, first children first.
    pub open spec fn leaves(self) -> Seq<LeafView>
        decreases self,
    {
        match self {
            Tree::Leaf(v) => seq![v],
            Tree::Split { first, second, .. } => first.leaves() + second.leaves(),
            Tree::Stack(children) => Tree::leaves_of(children),
            Tree::Overlay { base, overlay, .. } => base.leaves() + overlay.leaves(),
        }
    }

    /// The leaves of the children of a stack, in order.
    pub open spec fn leaves_of(children: Seq<Tree>) -> Seq<LeafView>
        decreases children,
    {
        if children.len() == 0 {
            Seq::empty()
        } else {
            Tree::leaves_of(children.drop_last()) + children.last().leaves()
        }
    }

    /// The ids of the leaves, in leaf order.
    pub open spec fn ids(self) -> Seq<ViewId> {
        self.leaves().map_values(|v: LeafView| v.key())
    }

    /// Some leaf carries the id.
    pub open spec fn has(self, id: ViewId) -> bool {
        first_view(self.leaves(), id) is Some
    }

    /// The rectangles of the leaves in `bounds`, with a band of `gap_in`
    /// cells at every split. An overlay counts its position from `container`,
    /// of which `bounds` is the part inside the outer gap.
    pub open spec fn allocate(self, container: Rect, bounds: Rect, gap_in: u16) -> Seq<
        (ViewId, Rect),
    >
        decreases self,
    {
        match self {
            Tree::Leaf(v) => seq![(v.key(), bounds)],
            Tree::Split { axis, ratio, first, second } => {
                let (a, b) = split_rects(bounds, axis, ratio, gap_in);
                first.allocate(a, a, gap_in) + second.allocate(b, b, gap_in)
            },
            Tree::Stack(children) => Tree::allocate_all(children, container, bounds, gap_in),
            Tree::Overlay { base, overlay, bounds: desired, .. } => {
                let area = overlay_rect(desired, container, bounds);
                base.allocate(container, bounds, gap_in) + overlay.allocate(area, area, gap_in)
            },
        }
    }

    /// The rectangles of the leaves of all children of a stack.
    pub open spec fn allocate_all(
        children: Seq<Tree>,
        container: Rect,
        bounds: Rect,
        gap_in: u16,
    ) -> Seq<(ViewId, Rect)>
        decreases children,
    {
        if children.len() == 0 {
            Seq::empty()
        } else {
            Tree::allocate_all(children.drop_last(), container, bounds, gap_in)
                + children.last().allocate(container, bounds, gap_in)
        }
    }

    /// The rectangles of the leaves in `bounds`, with a band of `band_x` units
    /// at side-by-side splits and of `band_y` units at stacked ones. An overlay
    /// counts its position from `container`.
    pub open spec fn frames(self, container: Rect, bounds: Rect, band_x: u16, band_y: u16) -> Seq<
        (ViewId, Rect),
    >
        decreases self,
    {
        match self {
            Tree::Leaf(v) => seq![(v.key(), bounds)],
            Tree::Split { axis, ratio, first, second } => {
                let band = if axis == SplitAxis::Horizontal {
                    band_x
                } else {
                    band_y
                };
                let (a, b) = split_rects(bounds, axis, ratio, band);
                first.frames(a, a, band_x, band_y) + second.frames(b, b, band_x, band_y)
            },
            Tree::Stack(children) => Tree::frames_of(
                children,
                container,
                bounds,
                band_x,
                band_y,
            ),
            Tree::Overlay { base, overlay, bounds: desired, .. } => {
                let area = overlay_rect(desired, container, bounds);
                base.frames(container, bounds, band_x, band_y) + overlay.frames(
                    area,
                    area,
                    band_x,
                    band_y,
                )
            },
        }
    }

    /// The frames of all children of a stack.
    pub open spec fn frames_of(
        children: Seq<Tree>,
        container: Rect,
        bounds: Rect,
        band_x: u16,
        band_y: u16,
    ) -> Seq<(ViewId, Rect)>
        decreases children,
    {
        if children.len() == 0 {
            Seq::empty()
        } else {
            Tree::frames_of(children.drop_last(), container, bounds, band_x, band_y)
                + children.last().frames(container, bounds, band_x, band_y)
        }
    }

    /// The tree with its first leaf `id` exchanged for `v`.
    pub open spec fn put(self, id: ViewId, v: LeafView) -> Tree
        decreases self,
    {
        match self {
            Tree::Leaf(w) => if w.key() == id {
                Tree::Leaf(v)
            } else {
                self
            },
            Tree::Split { axis, ratio, first, second } => if first.has(id) {
                Tree::Split { axis, ratio, first: Box::new(first.put(id, v)), second }
            } else {
                Tree::Split { axis, ratio, first, second: Box::new(second.put(id, v)) }
            },
            Tree::Stack(children) => Tree::Stack(Tree::put_in(children, id, v)),
            Tree::Overlay { base, overlay, bounds, tier } => if base.has(id) {
                Tree::Overlay { base: Box::new(base.put(id, v)), overlay, bounds, tier }
            } else {
                Tree::Overlay { base, overlay: Box::new(overlay.put(id, v)), bounds, tier }
            },
        }
    }

    /// [`Tree::put`] on the first child that carries the id.
    pub open spec fn put_in(children: Seq<Tree>, id: ViewId, v: LeafView) -> Seq<Tree>
        decreases children,
    {
        if children.len() == 0 {
            children
        } else if first_view(Tree::leaves_of(children.drop_last()), id) is Some {
            Tree::put_in(children.drop_last(), id, v).push(children.last())
        } else {
            children.drop_last().push(children.last().put(id, v))
        }
    }

    /// The tree with its first leaf `id` exchanged for a whole tree.
    pub open spec fn graft(self, id: ViewId, part: Tree) -> Tree
        decreases self,
    {
        match self {
            Tree::Leaf(w) => if w.key() == id {
                part
            } else {
                self
            },
            Tree::Split { axis, ratio, first, second } => if first.has(id) {
                Tree::Split { axis, ratio, first: Box::new(first.graft(id, part)), second }
            } else {
                Tree::Split { axis, ratio, first, second: Box::new(second.graft(id, part)) }
            },
            Tree::Stack(children) => Tree::Stack(Tree::graft_in(children, id, part)),
            Tree::Overlay { base, overlay, bounds, tier } => if base.has(id) {
                Tree::Overlay { base: Box::new(base.graft(id, part)), overlay, bounds, tier }
            } else {
                Tree::Overlay { base, overlay: Box::new(overlay.graft(id, part)), bounds, tier }
            },
        }
    }

    /// [`Tree::graft`] on the first child that carries the id.
    pub open spec fn graft_in(children: Seq<Tree>, id: ViewId, part: Tree) -> Seq<Tree>
        decreases children,
    {
        if children.len() == 0 {
            children
        } else if first_view(Tree::leaves_of(children.drop_last()), id) is Some {
            Tree::graft_in(children.drop_last(), id, part).push(children.last())
        } else {
            children.drop_last().push(children.last().graft(id, part))
        }
    }

    /// The tree with `v` docked to the first leaf `target`: a split along
    /// `axis` takes the place of that leaf and holds both.
    pub open spec fn beside(
        self,
        target: ViewId,
        v: LeafView,
        axis: SplitAxis,
        ratio: u32,
        after: bool,
    ) -> Tree {
        match first_view(self.leaves(), target) {
            None => self,
            Some(w) => self.graft(target, Tree::pair(w, v, axis, ratio, after)),
        }
    }

    /// A split of the leaf `w` and the leaf `v`, which stands after or before.
    pub open spec fn pair(
        w: LeafView,
        v: LeafView,
        axis: SplitAxis,
        ratio: u32,
        after: bool,
    ) -> Tree {
        let (first, second) = if after {
            (w, v)
        } else {
            (v, w)
        };
        Tree::Split {
            axis,
            ratio: float32::clamped_bits(ratio),
            first: Box::new(Tree::Leaf(first)),
            second: Box::new(Tree::Leaf(second)),
        }
    }

    /// The tree without its first leaf `id`; `None` when nothing is left. A
    /// split or an overlay that loses one child becomes the other child.
    pub open spec fn without(self, id: ViewId) -> Option<Tree>
        decreases self,
    {
        if !self.has(id) {
            Some(self)
        } else {
            match self {
                Tree::Leaf(_) => None,
                Tree::Split { axis, ratio, first, second } => if first.has(id) {
                    match first.without(id) {
                        None => Some(*second),
                        Some(t) => Some(Tree::Split { axis, ratio, first: Box::new(t), second }),
                    }
                } else {
                    match second.without(id) {
                        None => Some(*first),
                        Some(t) => Some(Tree::Split { axis, ratio, first, second: Box::new(t) }),
                    }
                },
                Tree::Stack(children) => {
                    let rest = Tree::without_in(children, id);
                    if rest.len() == 0 {
                        None
                    } else {
                        Some(Tree::Stack(rest))
                    }
                },
                Tree::Overlay { base, overlay, bounds, tier } => if base.has(id) {
                    match base.without(id) {
                        None => Some(*overlay),
                        Some(t) => Some(Tree::Overlay { base: Box::new(t), overlay, bounds, tier }),
                    }
                } else {
                    match overlay.without(id) {
                        None => Some(*base),
                        Some(t) => Some(Tree::Overlay { base, overlay: Box::new(t), bounds, tier }),
                    }
                },
            }
        }
    }

    /// The children without the first leaf `id`; a child that is used up is
    /// dropped.
    pub open spec fn without_in(children: Seq<Tree>, id: ViewId) -> Seq<Tree>
        decreases children,
    {
        if children.len() == 0 {
            children
        } else if first_view(Tree::leaves_of(children.drop_last()), id) is Some {
            Tree::without_in(children.drop_last(), id).push(children.last())
        } else {
            match children.last().without(id) {
                None => children.drop_last(),
                Some(t) => children.drop_last().push(t),
            }
        }
    }

    /// What remains of the tree when the first leaf `id` is taken out; an
    /// empty stack when nothing remains.
    pub open spec fn pruned(self, id: ViewId) -> Tree {
        match self.without(id) {
            Some(t) => t,
            None => Tree::Stack(Seq::empty()),
        }
    }

    /// The ratio of the split at `path`. Each step of a path picks a child:
    /// `0` and `1` for a split or an overlay, the position for a stack.
    pub open spec fn ratio_at(self, path: Seq<usize>) -> Option<u32>
        decreases self,
    {
        if path.len() == 0 {
            match self {
                Tree::Split { ratio, .. } => Some(ratio),
                _ => None,
            }
        } else {
            let step = path[0];
            let rest = path.drop_first();
            match self {
                Tree::Leaf(_) => None,
                Tree::Split { first, second, .. } => if step == 0 {
                    first.ratio_at(rest)
                } else if step == 1 {
                    second.ratio_at(rest)
                } else {
                    None
                },
                Tree::Stack(children) => if step < children.len() {
                    children[step as int].ratio_at(rest)
                } else {
                    None
                },
                Tree::Overlay { base, overlay, .. } => if step == 0 {
                    base.ratio_at(rest)
                } else if step == 1 {
                    overlay.ratio_at(rest)
                } else {
                    None
                },
            }
        }
    }

    /// The tree with another ratio for the split at `path`; the tree itself
    /// when no split is there.
    pub open spec fn with_ratio_at(self, path: Seq<usize>, ratio: u32) -> Tree
        decreases self,
    {
        if path.len() == 0 {
            match self {
                Tree::Split { axis, first, second, .. } => Tree::Split {
                    axis,
                    ratio,
                    first,
                    second,
                },
                _ => self,
            }
        } else {
            let step = path[0];
            let rest = path.drop_first();
            match self {
                Tree::Leaf(_) => self,
                Tree::Split { axis, ratio: own, first, second } => if step == 0 {
                    Tree::Split {
                        axis,
                        ratio: own,
                        first: Box::new(first.with_ratio_at(rest, ratio)),
                        second,
                    }
                } else if step == 1 {
                    Tree::Split {
                        axis,
                        ratio: own,
                        first,
                        second: Box::new(second.with_ratio_at(rest, ratio)),
                    }
                } else {
                    self
                },
                Tree::Stack(children) => if step < children.len() {
                    Tree::Stack(
                        children.update(
                            step as int,
                            children[step as int].with_ratio_at(rest, ratio),
                        ),
                    )
                } else {
                    self
                },
                Tree::Overlay { base, overlay, bounds, tier } => if step == 0 {
                    Tree::Overlay {
                        base: Box::new(base.with_ratio_at(rest, ratio)),
                        overlay,
                        bounds,
                        tier,
                    }
                } else if step == 1 {
                    Tree::Overlay {
                        base,
                        overlay: Box::new(overlay.with_ratio_at(rest, ratio)),
                        bounds,
                        tier,
                    }
                } else {
                    self
                },
            }
        }
    }

    /// The tree after each allocation in turn has placed the first leaf with
    /// its id.
    pub open spec fn placed(self, slots: Seq<(ViewId, Rect)>) -> Tree
        decreases slots.len(),
    {
        if slots.len() == 0 {
            self
        } else {
            let before = self.placed(slots.drop_last());
            let (id, rect) = slots.last();
            match first_view(before.leaves(), id) {
                Some(v) => before.put(id, v.placed(rect)),
                None => before,
            }
        }
    }
}

} // verus!
