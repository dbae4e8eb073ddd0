//! Laws of the layout solver, stated over the tree model.

use crate::float32;
use crate::geometry;
use crate::geometry::{Rect, SplitAxis};
use crate::layout::OverlayTier;
use crate::layout_edit;
use crate::tree;
use crate::tree::Tree;
use crate::view::{LeafView, ViewId};
use vstd::arithmetic::power2::*;
use vstd::prelude::*;

verus! {

/// The first child, the band and the second child of a split add up to the
/// divided span. The first child keeps at least one cell, and so does the
/// second when the band leaves room for both.
pub proof fn split_spans_add_up(total: int, ratio: u32, gap_in: int)
    requires
        0 <= total <= 65535,
        0 <= gap_in <= 65535,
    ensures
        ({
            let (first, gap, second) = tree::split_spans(total, ratio, gap_in);
            &&& first + gap + second == total
            &&& 0 <= first && 0 <= gap <= gap_in && 0 <= second
            &&& total >= 1 ==> first >= 1
            &&& total >= gap_in + 2 ==> gap == gap_in && second >= 1
        }),
{
}

/// A band takes its cells first and the ratio divides the rest: a span with a
/// band is divided like the shorter span without one. The first child has the
/// integer part of ratio times cells, where the ratio with exponent bits `e` and
/// fraction bits `f` is `(2^23 + f) / 2^(150 - e)` and a product of more than 24
/// binary digits is rounded at its 24th. Neither child is empty.
pub proof fn bands_leave_the_ratio(total: int, ratio: u32, gap_in: int, place: nat)
    requires
        0 <= gap_in,
        gap_in + 2 <= total <= 65535,
        0x3DCC_CCCD <= ratio <= 0x3F66_6666,
    ensures
        ({
            let avail = total - gap_in;
            let (first, gap, second) = tree::split_spans(total, ratio, gap_in);
            let product = avail * (ratio as int % 0x80_0000 + 0x80_0000);
            let one = pow2((150 - ratio as int / 0x80_0000) as nat) as int;
            &&& gap == gap_in && first + second == avail && first >= 1 && second >= 1
            &&& tree::split_spans(avail, ratio, 0) == (first, 0int, second)
            &&& product < 0x100_0000 ==> first == (if product / one < 1 {
                1
            } else if product / one > avail - 1 {
                avail - 1
            } else {
                product / one
            })
            &&& pow2(place + 24) <= product < pow2(place + 25) ==> first == ({
                let whole = (product + pow2(place)) / one;
                if whole < 1 {
                    1
                } else if whole > avail - 1 {
                    avail - 1
                } else {
                    whole
                }
            })
        }),
{
    let avail = (total - gap_in) as nat;
    float32::clamping_is_idempotent(ratio);
    float32::ratios_multiply_as_numbers(avail, ratio, place);
    assert(ratio as int % 0x80_0000 == ratio as nat % 0x80_0000);
}

/// A ratio that is no number between a tenth and nine tenths divides like the
/// nearest one that is, and one that is no finite number divides evenly.
pub proof fn odd_ratios_are_clamped(total: int, ratio: u32, gap_in: int)
    ensures
        ({
            let exponent = ratio as int / 0x80_0000 % 256;
            let divided = tree::split_spans(total, ratio, gap_in);
            &&& exponent == 255 ==> divided == tree::split_spans(total, 0x3F00_0000, gap_in)
            &&& exponent < 255 && (ratio >= 0x8000_0000 || ratio < 0x3DCC_CCCD) ==> divided
                == tree::split_spans(total, 0x3DCC_CCCD, gap_in)
            &&& exponent < 255 && 0x3F66_6666 < ratio < 0x8000_0000 ==> divided
                == tree::split_spans(total, 0x3F66_6666, gap_in)
        }),
{
    float32::ratio_bounds_are_tenths(ratio);
    float32::ratio_bounds_are_tenths(0x3F00_0000);
    float32::ratio_bounds_are_tenths(0x3DCC_CCCD);
    float32::ratio_bounds_are_tenths(0x3F66_6666);
}

/// An even split gives the first child half of what the band leaves, rounded
/// down.
pub proof fn even_splits_are_halves(total: int, gap_in: int)
    requires
        0 <= gap_in,
        gap_in + 2 <= total <= 65535,
    ensures
        tree::split_spans(total, 0x3F00_0000, gap_in) == (
            (total - gap_in) / 2,
            gap_in,
            (total - gap_in) - (total - gap_in) / 2,
        ),
{
    float32::half_is_half((total - gap_in) as nat);
}

/// A span of a single cell goes to the first child, and a band that leaves no
/// room for two leaves one cell to it.
pub proof fn crowded_spans_go_to_the_first(total: int, ratio: u32, gap_in: int)
    requires
        0 <= total,
        0 <= gap_in,
        total < gap_in + 2,
    ensures
        ({
            let (first, gap, second) = tree::split_spans(total, ratio, gap_in);
            &&& second == 0
            &&& total < 2 ==> first == total && gap == 0
            &&& total >= 2 && gap_in > 0 ==> first == 1 && gap == total - 1
        }),
{
}

/// Side by side the parts of a split keep the rows of the rectangle and follow
/// each other from left to right; stacked they keep its columns and follow each
/// other from top to bottom. Only the band lies between them.
pub proof fn split_parts_are_placed(bounds: Rect, axis: SplitAxis, ratio: u32, gap_in: u16)
    requires
        bounds.width > 0,
        bounds.height > 0,
        bounds.x + bounds.width <= 65535,
        bounds.y + bounds.height <= 65535,
    ensures
        ({
            let (a, b) = tree::split_rects(bounds, axis, ratio, gap_in);
            &&& a.x == bounds.x && a.y == bounds.y
            &&& axis == SplitAxis::Horizontal ==> {
                let (first, gap, second) = tree::split_spans(
                    bounds.width as int,
                    ratio,
                    gap_in as int,
                );
                &&& a.height == bounds.height && b.height == bounds.height && b.y == bounds.y
                &&& a.width == first && b.width == second
                &&& b.x == bounds.x + first + gap
                &&& b.x + b.width == bounds.x + bounds.width
            }
            &&& axis == SplitAxis::Vertical ==> {
                let (first, gap, second) = tree::split_spans(
                    bounds.height as int,
                    ratio,
                    gap_in as int,
                );
                &&& a.width == bounds.width && b.width == bounds.width && b.x == bounds.x
                &&& a.height == first && b.height == second
                &&& b.y == bounds.y + first + gap
                &&& b.y + b.height == bounds.y + bounds.height
            }
        }),
{
    split_spans_add_up(bounds.width as int, ratio, gap_in as int);
    split_spans_add_up(bounds.height as int, ratio, gap_in as int);
}

/// The cells of the two parts of a split lie in the split rectangle.
pub proof fn split_parts_stay_inside(bounds: Rect, axis: SplitAxis, ratio: u32, gap_in: u16)
    ensures
        ({
            let (a, b) = tree::split_rects(bounds, axis, ratio, gap_in);
            &&& forall|cx: int, cy: int| #[trigger] a.covers(cx, cy) ==> bounds.covers(cx, cy)
            &&& forall|cx: int, cy: int| #[trigger] b.covers(cx, cy) ==> bounds.covers(cx, cy)
        }),
{
    split_spans_add_up(bounds.width as int, ratio, gap_in as int);
    split_spans_add_up(bounds.height as int, ratio, gap_in as int);
}

/// The rectangle ends within the addressable grid.
pub open spec fn addressable(r: Rect) -> bool {
    r.right_edge() <= 65536 && r.bottom_edge() <= 65536
}

/// The two parts of a split share no cell, and without a band they cover
/// every cell of the split rectangle.
pub proof fn split_parts_partition(bounds: Rect, axis: SplitAxis, ratio: u32, gap_in: u16)
    requires
        addressable(bounds),
    ensures
        ({
            let (a, b) = tree::split_rects(bounds, axis, ratio, gap_in);
            &&& addressable(a) && addressable(b)
            &&& forall|cx: int, cy: int|
                #![trigger a.covers(cx, cy)]
                #![trigger b.covers(cx, cy)]
                !(a.covers(cx, cy) && b.covers(cx, cy))
            &&& gap_in == 0 ==> forall|cx: int, cy: int|
                #![trigger bounds.covers(cx, cy)]
                bounds.covers(cx, cy) ==> a.covers(cx, cy) || b.covers(cx, cy)
        }),
{
    split_spans_add_up(bounds.width as int, ratio, gap_in as int);
    split_spans_add_up(bounds.height as int, ratio, gap_in as int);
}

/// Only leaves and splits: no stack and no overlay.
pub open spec fn is_tiling(t: Tree) -> bool
    decreases t,
{
    match t {
        Tree::Leaf(_) => true,
        Tree::Split { first, second, .. } => is_tiling(*first) && is_tiling(*second),
        _ => false,
    }
}

/// How many of the slots cover a cell.
pub open spec fn hits(slots: Seq<(ViewId, Rect)>, cx: int, cy: int) -> nat
    decreases slots.len(),
{
    if slots.len() == 0 {
        0
    } else {
        hits(slots.drop_last(), cx, cy) + (if slots.last().1.covers(cx, cy) {
            1nat
        } else {
            0
        })
    }
}

proof fn hits_of_runs(a: Seq<(ViewId, Rect)>, b: Seq<(ViewId, Rect)>, cx: int, cy: int)
    ensures
        hits(a + b, cx, cy) == hits(a, cx, cy) + hits(b, cx, cy),
    decreases b.len(),
{
    if b.len() == 0 {
        assert(a + b =~= a);
    } else {
        assert((a + b).drop_last() =~= a + b.drop_last());
        hits_of_runs(a, b.drop_last(), cx, cy);
    }
}

proof fn hits_of_one(slot: (ViewId, Rect), cx: int, cy: int)
    ensures
        hits(seq![slot], cx, cy) == (if slot.1.covers(cx, cy) {
            1nat
        } else {
            0
        }),
{
    reveal_with_fuel(hits, 2);
}

/// Without gaps a tiling covers every cell of the container exactly once and
/// no other cell.
pub proof fn tiling_covers_each_cell_once(
    t: Tree,
    container: Rect,
    bounds: Rect,
    cx: int,
    cy: int,
)
    requires
        is_tiling(t),
        addressable(bounds),
    ensures
        hits(t.allocate(container, bounds, 0), cx, cy) == (if bounds.covers(cx, cy) {
            1nat
        } else {
            0
        }),
    decreases t,
{
    match t {
        Tree::Leaf(v) => hits_of_one((v.key(), bounds), cx, cy),
        Tree::Split { axis, ratio, first, second } => {
            let (a, b) = tree::split_rects(bounds, axis, ratio, 0);
            split_parts_partition(bounds, axis, ratio, 0);
            split_parts_stay_inside(bounds, axis, ratio, 0);
            tiling_covers_each_cell_once(*first, a, a, cx, cy);
            tiling_covers_each_cell_once(*second, b, b, cx, cy);
            hits_of_runs(first.allocate(a, a, 0), second.allocate(b, b, 0), cx, cy);
        },
        _ => {},
    }
}

/// With gaps a tiling still never gives a cell to two leaves.
pub proof fn tiling_never_overlaps(
    t: Tree,
    container: Rect,
    bounds: Rect,
    gap_in: u16,
    cx: int,
    cy: int,
)
    requires
        is_tiling(t),
        addressable(bounds),
    ensures
        hits(t.allocate(container, bounds, gap_in), cx, cy) <= (if bounds.covers(cx, cy) {
            1nat
        } else {
            0
        }),
    decreases t,
{
    match t {
        Tree::Leaf(v) => hits_of_one((v.key(), bounds), cx, cy),
        Tree::Split { axis, ratio, first, second } => {
            let (a, b) = tree::split_rects(bounds, axis, ratio, gap_in);
            split_parts_partition(bounds, axis, ratio, gap_in);
            split_parts_stay_inside(bounds, axis, ratio, gap_in);
            tiling_never_overlaps(*first, a, a, gap_in, cx, cy);
            tiling_never_overlaps(*second, b, b, gap_in, cx, cy);
            hits_of_runs(first.allocate(a, a, gap_in), second.allocate(b, b, gap_in), cx, cy);
        },
        _ => {},
    }
}

/// The slots of a layout carry the leaf ids, one slot per leaf, in leaf order.
pub proof fn one_slot_per_leaf(t: Tree, container: Rect, bounds: Rect, gap_in: u16)
    ensures
        t.allocate(container, bounds, gap_in).len() == t.leaves().len(),
        forall|k: int|
            0 <= k < t.leaves().len() ==> (#[trigger] t.allocate(container, bounds, gap_in)[k]).0
                == t.leaves()[k].key(),
    decreases t,
{
    match t {
        Tree::Leaf(_) => {},
        Tree::Split { axis, ratio, first, second } => {
            let (a, b) = tree::split_rects(bounds, axis, ratio, gap_in);
            one_slot_per_leaf(*first, a, a, gap_in);
            one_slot_per_leaf(*second, b, b, gap_in);
        },
        Tree::Stack(children) => one_slot_per_leaf_of(children, container, bounds, gap_in),
        Tree::Overlay { base, overlay, bounds: desired, .. } => {
            one_slot_per_leaf(*base, container, bounds, gap_in);
            let area = tree::overlay_rect(desired, container, bounds);
            one_slot_per_leaf(*overlay, area, area, gap_in);
        },
    }
}

proof fn one_slot_per_leaf_of(children: Seq<Tree>, container: Rect, bounds: Rect, gap_in: u16)
    ensures
        Tree::allocate_all(children, container, bounds, gap_in).len() == Tree::leaves_of(children).len(),
        forall|k: int|
            0 <= k < Tree::leaves_of(children).len() ==> (#[trigger] Tree::allocate_all(
                children,
                container,
                bounds,
                gap_in,
            )[k]).0 == Tree::leaves_of(children)[k].key(),
    decreases children,
{
    if children.len() > 0 {
        one_slot_per_leaf_of(children.drop_last(), container, bounds, gap_in);
        one_slot_per_leaf(children.last(), container, bounds, gap_in);
    }
}

/// An overlay covers the cells of `bounds` whose offset from the upper left
/// corner of the container lies in its own bounds, as far as coordinates reach.
pub proof fn overlays_are_container_local(
    desired: Rect,
    container: Rect,
    bounds: Rect,
    cx: int,
    cy: int,
)
    requires
        container.x + desired.x <= u16::MAX,
        container.y + desired.y <= u16::MAX,
    ensures
        tree::overlay_rect(desired, container, bounds).covers(cx, cy) == (bounds.covers(cx, cy)
            && desired.covers(cx - container.x, cy - container.y)),
{
    geometry::intersection_holds_the_shared_cells(tree::carried_into(desired, container), bounds);
    assert(tree::carried_into(desired, container).covers(cx, cy) == desired.covers(
        cx - container.x,
        cy - container.y,
    ));
    assert(!geometry::zero_rect().covers(cx, cy));
}

/// An overlay that lies inside the outer gap stays where it is without gaps.
pub proof fn gaps_leave_overlays_in_place(desired: Rect, container: Rect, outer: u16)
    requires
        !desired.vacant(),
        outer <= desired.x,
        outer <= desired.y,
        desired.right_edge() + outer <= container.width,
        desired.bottom_edge() + outer <= container.height,
        addressable(container),
    ensures
        tree::overlay_rect(desired, container, geometry::inset(container, outer))
            == tree::overlay_rect(desired, container, container),
        tree::overlay_rect(desired, container, container) == tree::carried_into(
            desired,
            container,
        ),
{
}

/// A leaf fills its bounds. The children of a split are solved in the two parts
/// of it, the first one first. A base is solved in the bounds and its overlay, on
/// top, in its own clipped rectangle.
pub proof fn trees_are_solved_part_by_part(
    v: LeafView,
    axis: SplitAxis,
    ratio: u32,
    first: Tree,
    second: Tree,
    desired: Rect,
    tier: OverlayTier,
    container: Rect,
    bounds: Rect,
    gap_in: u16,
)
    ensures
        Tree::Leaf(v).allocate(container, bounds, gap_in) == seq![(v.key(), bounds)],
        ({
            let (a, b) = tree::split_rects(bounds, axis, ratio, gap_in);
            (Tree::Split { axis, ratio, first: Box::new(first), second: Box::new(second) }).allocate(
                container,
                bounds,
                gap_in,
            ) == first.allocate(a, a, gap_in) + second.allocate(b, b, gap_in)
        }),
        ({
            let top = tree::overlay_rect(desired, container, bounds);
            (Tree::Overlay {
                base: Box::new(first),
                overlay: Box::new(second),
                bounds: desired,
                tier,
            }).allocate(container, bounds, gap_in) == first.allocate(container, bounds, gap_in)
                + second.allocate(top, top, gap_in)
        }),
{
}

/// Every child of a stack is solved in the bounds of the stack, in order.
pub proof fn stacked_children_share_the_bounds(
    children: Seq<Tree>,
    child: Tree,
    container: Rect,
    bounds: Rect,
    gap_in: u16,
)
    ensures
        Tree::Stack(Seq::empty()).allocate(container, bounds, gap_in) == Seq::<
            (ViewId, Rect),
        >::empty(),
        Tree::Stack(children.push(child)).allocate(container, bounds, gap_in) == Tree::Stack(
            children,
        ).allocate(container, bounds, gap_in) + child.allocate(container, bounds, gap_in),
{
    assert(children.push(child).drop_last() =~= children);
    assert(Tree::allocate_all(Seq::<Tree>::empty(), container, bounds, gap_in) =~= Seq::<
        (ViewId, Rect),
    >::empty());
    assert(Tree::allocate_all(children.push(child), container, bounds, gap_in)
        == Tree::allocate_all(children, container, bounds, gap_in) + child.allocate(
        container,
        bounds,
        gap_in,
    ));
}

/// A path names a child at each step: `0` and `1` the children of a split or the
/// base and the overlay, and otherwise the position in a stack. The ratio of a
/// split is read and set at the end of its path.
pub proof fn paths_name_children(
    axis: SplitAxis,
    ratio: u32,
    first: Tree,
    second: Tree,
    children: Seq<Tree>,
    k: usize,
    rest: Seq<usize>,
    other: u32,
)
    requires
        k < children.len(),
    ensures
        ({
            let split = |r: u32, a: Tree, b: Tree|
                Tree::Split { axis, ratio: r, first: Box::new(a), second: Box::new(b) };
            let t = split(ratio, first, second);
            &&& t.ratio_at(Seq::empty()) == Some(ratio)
            &&& t.ratio_at(seq![0usize] + rest) == first.ratio_at(rest)
            &&& t.ratio_at(seq![1usize] + rest) == second.ratio_at(rest)
            &&& Tree::Stack(children).ratio_at(seq![k] + rest) == children[k as int].ratio_at(rest)
            &&& t.with_ratio_at(Seq::empty(), other) == split(other, first, second)
            &&& t.with_ratio_at(seq![0usize] + rest, other) == split(
                ratio,
                first.with_ratio_at(rest, other),
                second,
            )
            &&& t.with_ratio_at(seq![1usize] + rest, other) == split(
                ratio,
                first,
                second.with_ratio_at(rest, other),
            )
        }),
{
    assert((seq![0usize] + rest).drop_first() =~= rest);
    assert((seq![1usize] + rest).drop_first() =~= rest);
    assert((seq![k] + rest).drop_first() =~= rest);
}

/// No slot of a layout reaches outside the bounds.
pub proof fn slots_stay_inside(
    t: Tree,
    container: Rect,
    bounds: Rect,
    gap_in: u16,
    k: int,
    cx: int,
    cy: int,
)
    requires
        0 <= k < t.allocate(container, bounds, gap_in).len(),
        t.allocate(container, bounds, gap_in)[k].1.covers(cx, cy),
    ensures
        bounds.covers(cx, cy),
    decreases t,
{
    match t {
        Tree::Leaf(_) => {},
        Tree::Split { axis, ratio, first, second } => {
            let (a, b) = tree::split_rects(bounds, axis, ratio, gap_in);
            let n = first.allocate(a, a, gap_in).len();
            split_parts_stay_inside(bounds, axis, ratio, gap_in);
            if k < n {
                slots_stay_inside(*first, a, a, gap_in, k, cx, cy);
            } else {
                slots_stay_inside(*second, b, b, gap_in, k - n, cx, cy);
            }
        },
        Tree::Stack(children) => slots_stay_inside_of(children, container, bounds, gap_in, k, cx, cy),
        Tree::Overlay { base, overlay, bounds: desired, .. } => {
            let n = base.allocate(container, bounds, gap_in).len();
            if k < n {
                slots_stay_inside(*base, container, bounds, gap_in, k, cx, cy);
            } else {
                let area = tree::overlay_rect(desired, container, bounds);
                slots_stay_inside(*overlay, area, area, gap_in, k - n, cx, cy);
            }
        },
    }
}

proof fn slots_stay_inside_of(
    children: Seq<Tree>,
    container: Rect,
    bounds: Rect,
    gap_in: u16,
    k: int,
    cx: int,
    cy: int,
)
    requires
        0 <= k < Tree::allocate_all(children, container, bounds, gap_in).len(),
        Tree::allocate_all(children, container, bounds, gap_in)[k].1.covers(cx, cy),
    ensures
        bounds.covers(cx, cy),
    decreases children,
{
    if children.len() > 0 {
        let n = Tree::allocate_all(children.drop_last(), container, bounds, gap_in).len();
        if k < n {
            slots_stay_inside_of(children.drop_last(), container, bounds, gap_in, k, cx, cy);
        } else {
            slots_stay_inside(children.last(), container, bounds, gap_in, k - n, cx, cy);
        }
    }
}

/// The position of the first view with the id, or the number of views when
/// there is none.
pub open spec fn first_position(views: Seq<LeafView>, id: ViewId) -> int
    decreases views.len(),
{
    if views.len() == 0 {
        0
    } else if tree::first_view(views.drop_last(), id) is Some {
        first_position(views.drop_last(), id)
    } else if views.last().key() == id {
        views.len() - 1
    } else {
        views.len() as int
    }
}

/// [`first_position`] names the first view with the id: that view, and no
/// view before it, carries the id.
pub proof fn first_position_is_first(views: Seq<LeafView>, id: ViewId)
    ensures
        match tree::first_view(views, id) {
            Some(v) => 0 <= first_position(views, id) < views.len()
                && views[first_position(views, id)] == v && v.key() == id && forall|j: int|
                0 <= j < first_position(views, id) ==> (#[trigger] views[j]).key() != id,
            None => first_position(views, id) == views.len() && forall|j: int|
                0 <= j < views.len() ==> (#[trigger] views[j]).key() != id,
        },
    decreases views.len(),
{
    if views.len() > 0 {
        first_position_is_first(views.drop_last(), id);
        assert forall|j: int| 0 <= j < views.len() - 1 implies views[j]
            == views.drop_last()[j] by {}
    }
}

proof fn first_position_of_runs(a: Seq<LeafView>, b: Seq<LeafView>, id: ViewId)
    ensures
        first_position(a + b, id) == (if tree::first_view(a, id) is Some {
            first_position(a, id)
        } else {
            a.len() + first_position(b, id)
        }),
    decreases b.len(),
{
    if b.len() == 0 {
        assert(a + b =~= a);
        first_position_is_first(a, id);
    } else {
        assert((a + b).drop_last() =~= a + b.drop_last());
        first_position_of_runs(a, b.drop_last(), id);
        tree::first_view_of_runs(a, b.drop_last(), id);
        first_position_is_first(a, id);
        first_position_is_first(b.drop_last(), id);
    }
}

/// Exchanging a leaf changes that leaf and no other.
pub proof fn put_changes_one_leaf(t: Tree, id: ViewId, v: LeafView)
    requires
        t.has(id),
    ensures
        t.put(id, v).leaves() == t.leaves().update(first_position(t.leaves(), id), v),
    decreases t,
{
    first_position_is_first(t.leaves(), id);
    match t {
        Tree::Leaf(w) => {
            tree::first_view_of_one(w, id);
        },
        Tree::Split { first, second, .. } => {
            tree::first_view_of_runs(first.leaves(), second.leaves(), id);
            if first.has(id) {
                put_changes_one_leaf(*first, id, v);
            } else {
                put_changes_one_leaf(*second, id, v);
            }
            put_in_runs(*first, *second, id, v);
        },
        Tree::Stack(children) => put_changes_one_leaf_of(children, id, v),
        Tree::Overlay { base, overlay, .. } => {
            tree::first_view_of_runs(base.leaves(), overlay.leaves(), id);
            if base.has(id) {
                put_changes_one_leaf(*base, id, v);
            } else {
                put_changes_one_leaf(*overlay, id, v);
            }
            put_in_runs(*base, *overlay, id, v);
        },
    }
    assert(t.put(id, v).leaves() =~= t.leaves().update(first_position(t.leaves(), id), v));
}

proof fn put_in_runs(a: Tree, b: Tree, id: ViewId, v: LeafView)
    requires
        tree::first_view(a.leaves() + b.leaves(), id) is Some,
        a.has(id) ==> a.put(id, v).leaves() == a.leaves().update(
            first_position(a.leaves(), id),
            v,
        ),
        !a.has(id) ==> b.put(id, v).leaves() == b.leaves().update(
            first_position(b.leaves(), id),
            v,
        ),
    ensures
        (if a.has(id) {
            a.put(id, v).leaves() + b.leaves()
        } else {
            a.leaves() + b.put(id, v).leaves()
        }) == (a.leaves() + b.leaves()).update(
            first_position(a.leaves() + b.leaves(), id),
            v,
        ),
{
    tree::first_view_of_runs(a.leaves(), b.leaves(), id);
    first_position_of_runs(a.leaves(), b.leaves(), id);
    first_position_is_first(a.leaves(), id);
    first_position_is_first(b.leaves(), id);
    if a.has(id) {
        assert(a.put(id, v).leaves() + b.leaves() =~= (a.leaves() + b.leaves()).update(
            first_position(a.leaves() + b.leaves(), id),
            v,
        ));
    } else {
        assert(a.leaves() + b.put(id, v).leaves() =~= (a.leaves() + b.leaves()).update(
            first_position(a.leaves() + b.leaves(), id),
            v,
        ));
    }
}

proof fn put_changes_one_leaf_of(children: Seq<Tree>, id: ViewId, v: LeafView)
    requires
        tree::first_view(Tree::leaves_of(children), id) is Some,
    ensures
        Tree::leaves_of(Tree::put_in(children, id, v)) == Tree::leaves_of(children).update(
            first_position(Tree::leaves_of(children), id),
            v,
        ),
    decreases children,
{
    if children.len() > 0 {
        let before = children.drop_last();
        let last = children.last();
        tree::first_view_of_runs(Tree::leaves_of(before), last.leaves(), id);
        first_position_of_runs(Tree::leaves_of(before), last.leaves(), id);
        first_position_is_first(Tree::leaves_of(before), id);
        first_position_is_first(last.leaves(), id);
        if tree::first_view(Tree::leaves_of(before), id) is Some {
            put_changes_one_leaf_of(before, id, v);
            let after = Tree::put_in(before, id, v).push(last);
            assert(after.drop_last() =~= Tree::put_in(before, id, v));
        } else {
            put_changes_one_leaf(last, id, v);
            let after = before.push(last.put(id, v));
            assert(after.drop_last() =~= before);
        }
        assert(Tree::leaves_of(Tree::put_in(children, id, v)) =~= Tree::leaves_of(children).update(
            first_position(Tree::leaves_of(children), id),
            v,
        ));
    }
}

/// The solver reads the id of a leaf and nothing else of it: a leaf may be
/// exchanged for one with the same id without moving any allocation.
pub proof fn allocation_ignores_leaf_state(
    t: Tree,
    id: ViewId,
    v: LeafView,
    container: Rect,
    bounds: Rect,
    gap_in: u16,
)
    requires
        v.key() == id,
    ensures
        t.put(id, v).allocate(container, bounds, gap_in) == t.allocate(container, bounds, gap_in),
    decreases t,
{
    match t {
        Tree::Leaf(_) => {},
        Tree::Split { axis, ratio, first, second } => {
            let (a, b) = tree::split_rects(bounds, axis, ratio, gap_in);
            allocation_ignores_leaf_state(*first, id, v, a, a, gap_in);
            allocation_ignores_leaf_state(*second, id, v, b, b, gap_in);
        },
        Tree::Stack(children) => allocation_ignores_leaf_state_of(
            children,
            id,
            v,
            container,
            bounds,
            gap_in,
        ),
        Tree::Overlay { base, overlay, bounds: desired, .. } => {
            allocation_ignores_leaf_state(*base, id, v, container, bounds, gap_in);
            let area = tree::overlay_rect(desired, container, bounds);
            allocation_ignores_leaf_state(*overlay, id, v, area, area, gap_in);
        },
    }
}

proof fn allocation_ignores_leaf_state_of(
    children: Seq<Tree>,
    id: ViewId,
    v: LeafView,
    container: Rect,
    bounds: Rect,
    gap_in: u16,
)
    requires
        v.key() == id,
    ensures
        Tree::allocate_all(Tree::put_in(children, id, v), container, bounds, gap_in) == Tree::allocate_all(
            children,
            container,
            bounds,
            gap_in,
        ),
    decreases children,
{
    if children.len() > 0 {
        let before = children.drop_last();
        let last = children.last();
        if tree::first_view(Tree::leaves_of(before), id) is Some {
            allocation_ignores_leaf_state_of(before, id, v, container, bounds, gap_in);
            let after = Tree::put_in(before, id, v).push(last);
            assert(after.drop_last() =~= Tree::put_in(before, id, v));
        } else {
            allocation_ignores_leaf_state(last, id, v, container, bounds, gap_in);
            let after = before.push(last.put(id, v));
            assert(after.drop_last() =~= before);
        }
    }
}

/// Reflowing moves no allocation: the reflowed tree solves as the tree did.
pub proof fn reflow_keeps_the_allocation(
    t: Tree,
    slots: Seq<(ViewId, Rect)>,
    container: Rect,
    bounds: Rect,
    gap_in: u16,
)
    ensures
        t.placed(slots).allocate(container, bounds, gap_in) == t.allocate(container, bounds, gap_in),
    decreases slots.len(),
{
    broadcast use LeafView::parts_of;

    if slots.len() > 0 {
        reflow_keeps_the_allocation(t, slots.drop_last(), container, bounds, gap_in);
        let before = t.placed(slots.drop_last());
        let (id, rect) = slots.last();
        first_position_is_first(before.leaves(), id);
        match tree::first_view(before.leaves(), id) {
            Some(v) => allocation_ignores_leaf_state(
                before,
                id,
                v.placed(rect),
                container,
                bounds,
                gap_in,
            ),
            None => {},
        }
    }
}

/// No two leaves carry the same id.
pub open spec fn distinct_ids(t: Tree) -> bool {
    forall|i: int, j: int|
        0 <= i < j < t.leaves().len() ==> (#[trigger] t.leaves()[i]).key() != (
        #[trigger] t.leaves()[j]).key()
}

/// After a reflow every leaf has the size and the origin of its own slot, when
/// no two leaves share an id.
pub proof fn reflow_matches_the_allocation(t: Tree, container: Rect, bounds: Rect, gap_in: u16)
    requires
        distinct_ids(t),
    ensures
        t.placed(t.allocate(container, bounds, gap_in)).leaves().len() == t.leaves().len(),
        forall|k: int|
            0 <= k < t.leaves().len() ==> #[trigger] t.placed(
                t.allocate(container, bounds, gap_in),
            ).leaves()[k] == t.leaves()[k].placed(t.allocate(container, bounds, gap_in)[k].1),
{
    let slots = t.allocate(container, bounds, gap_in);
    one_slot_per_leaf(t, container, bounds, gap_in);
    assert(slots.take(slots.len() as int) =~= slots);
    placed_prefix(t, slots, slots.len() as int);
}

proof fn placed_prefix(t: Tree, slots: Seq<(ViewId, Rect)>, n: int)
    requires
        distinct_ids(t),
        slots.len() == t.leaves().len(),
        forall|k: int| 0 <= k < slots.len() ==> (#[trigger] slots[k]).0 == t.leaves()[k].key(),
        0 <= n <= slots.len(),
    ensures
        t.placed(slots.take(n)).leaves().len() == t.leaves().len(),
        forall|k: int|
            0 <= k < t.leaves().len() ==> #[trigger] t.placed(slots.take(n)).leaves()[k] == (if k
                < n {
                t.leaves()[k].placed(slots[k].1)
            } else {
                t.leaves()[k]
            }),
    decreases n,
{
    broadcast use LeafView::parts_of;

    if n == 0 {
        assert(slots.take(0) =~= Seq::empty());
    } else {
        placed_prefix(t, slots, n - 1);
        assert(slots.take(n).drop_last() =~= slots.take(n - 1));
        let before = t.placed(slots.take(n - 1));
        let (id, rect) = slots[n - 1];
        assert(slots.take(n).last() == slots[n - 1]);
        let views = before.leaves();
        assert(views[n - 1] == t.leaves()[n - 1]);
        assert forall|j: int| 0 <= j < views.len() implies (#[trigger] views[j]).key()
            == t.leaves()[j].key() by {}
        first_position_is_first(views, id);
        assert(tree::first_view(views, id) is Some);
        let p = first_position(views, id);
        assert(t.leaves()[p].key() == t.leaves()[n - 1].key());
        assert(p == n - 1);
        let v = views[p];
        put_changes_one_leaf(before, id, v.placed(rect));
    }
}

/// Setting a ratio moves no leaf.
pub proof fn ratio_change_keeps_leaves(t: Tree, path: Seq<usize>, ratio: u32)
    ensures
        t.with_ratio_at(path, ratio).leaves() == t.leaves(),
    decreases t,
{
    if path.len() > 0 {
        let rest = path.drop_first();
        match t {
            Tree::Leaf(_) => {},
            Tree::Split { first, second, .. } => {
                ratio_change_keeps_leaves(*first, rest, ratio);
                ratio_change_keeps_leaves(*second, rest, ratio);
            },
            Tree::Stack(children) => if path[0] < children.len() {
                ratio_change_keeps_leaves(children[path[0] as int], rest, ratio);
                leaves_of_update(
                    children,
                    path[0] as int,
                    children[path[0] as int].with_ratio_at(rest, ratio),
                );
            },
            Tree::Overlay { base, overlay, .. } => {
                ratio_change_keeps_leaves(*base, rest, ratio);
                ratio_change_keeps_leaves(*overlay, rest, ratio);
            },
        }
    }
}

proof fn leaves_of_update(children: Seq<Tree>, i: int, t: Tree)
    requires
        0 <= i < children.len(),
        t.leaves() == children[i].leaves(),
    ensures
        Tree::leaves_of(children.update(i, t)) == Tree::leaves_of(children),
    decreases children.len(),
{
    if i == children.len() - 1 {
        assert(children.update(i, t).drop_last() =~= children.drop_last());
    } else {
        assert(children.update(i, t).drop_last() =~= children.drop_last().update(i, t));
        leaves_of_update(children.drop_last(), i, t);
    }
}

/// A ratio that was set is the ratio that is read, and setting it a second
/// time replaces it.
pub proof fn ratio_set_is_ratio_read(t: Tree, path: Seq<usize>, ratio: u32, again: u32)
    ensures
        t.ratio_at(path) is Some ==> t.with_ratio_at(path, ratio).ratio_at(path) == Some(ratio),
        t.ratio_at(path) is None ==> t.with_ratio_at(path, ratio) == t,
        t.with_ratio_at(path, ratio).with_ratio_at(path, again) == t.with_ratio_at(path, again),
    decreases t,
{
    if path.len() > 0 {
        let rest = path.drop_first();
        match t {
            Tree::Leaf(_) => {},
            Tree::Split { first, second, .. } => {
                ratio_set_is_ratio_read(*first, rest, ratio, again);
                ratio_set_is_ratio_read(*second, rest, ratio, again);
            },
            Tree::Stack(children) => if path[0] < children.len() {
                let i = path[0] as int;
                ratio_set_is_ratio_read(children[i], rest, ratio, again);
                let c = children[i].with_ratio_at(rest, ratio);
                assert(children.update(i, c).update(i, c.with_ratio_at(rest, again))
                    =~= children.update(i, c.with_ratio_at(rest, again)));
                if t.ratio_at(path) is None {
                    assert(children.update(i, c) =~= children);
                }
            },
            Tree::Overlay { base, overlay, .. } => {
                ratio_set_is_ratio_read(*base, rest, ratio, again);
                ratio_set_is_ratio_read(*overlay, rest, ratio, again);
            },
        }
    }
}

/// Grafting exchanges one leaf for the leaves of the grafted tree.
pub proof fn graft_exchanges_one_leaf(t: Tree, id: ViewId, part: Tree)
    requires
        t.has(id),
    ensures
        ({
            let p = first_position(t.leaves(), id);
            t.graft(id, part).leaves() == t.leaves().take(p) + part.leaves() + t.leaves().skip(
                p + 1,
            )
        }),
    decreases t,
{
    first_position_is_first(t.leaves(), id);
    let p = first_position(t.leaves(), id);
    match t {
        Tree::Leaf(w) => {
            tree::first_view_of_one(w, id);
        },
        Tree::Split { first, second, .. } => {
            runs_with_leaf(first.leaves(), second.leaves(), id);
            if first.has(id) {
                graft_exchanges_one_leaf(*first, id, part);
            } else {
                graft_exchanges_one_leaf(*second, id, part);
            }
        },
        Tree::Stack(children) => graft_exchanges_one_leaf_of(children, id, part),
        Tree::Overlay { base, overlay, .. } => {
            runs_with_leaf(base.leaves(), overlay.leaves(), id);
            if base.has(id) {
                graft_exchanges_one_leaf(*base, id, part);
            } else {
                graft_exchanges_one_leaf(*overlay, id, part);
            }
        },
    }
    assert(t.graft(id, part).leaves() =~= t.leaves().take(p) + part.leaves() + t.leaves().skip(
        p + 1,
    ));
}

/// Where the first leaf of two runs stands, and what surrounds it.
pub proof fn runs_with_leaf(a: Seq<LeafView>, b: Seq<LeafView>, id: ViewId)
    ensures
        tree::first_view(a + b, id) == (if tree::first_view(a, id) is Some {
            tree::first_view(a, id)
        } else {
            tree::first_view(b, id)
        }),
        first_position(a + b, id) == (if tree::first_view(a, id) is Some {
            first_position(a, id)
        } else {
            a.len() + first_position(b, id)
        }),
        tree::first_view(a, id) is Some ==> 0 <= first_position(a, id) < a.len(),
        tree::first_view(b, id) is Some ==> 0 <= first_position(b, id) < b.len(),
{
    tree::first_view_of_runs(a, b, id);
    first_position_of_runs(a, b, id);
    first_position_is_first(a, id);
    first_position_is_first(b, id);
}

proof fn graft_exchanges_one_leaf_of(children: Seq<Tree>, id: ViewId, part: Tree)
    requires
        tree::first_view(Tree::leaves_of(children), id) is Some,
    ensures
        ({
            let all = Tree::leaves_of(children);
            let p = first_position(all, id);
            Tree::leaves_of(Tree::graft_in(children, id, part)) == all.take(p) + part.leaves()
                + all.skip(p + 1)
        }),
    decreases children,
{
    if children.len() > 0 {
        let before = children.drop_last();
        let last = children.last();
        let all = Tree::leaves_of(children);
        let p = first_position(all, id);
        runs_with_leaf(Tree::leaves_of(before), last.leaves(), id);
        if tree::first_view(Tree::leaves_of(before), id) is Some {
            graft_exchanges_one_leaf_of(before, id, part);
            let after = Tree::graft_in(before, id, part).push(last);
            assert(after.drop_last() =~= Tree::graft_in(before, id, part));
        } else {
            graft_exchanges_one_leaf(last, id, part);
            let after = before.push(last.graft(id, part));
            assert(after.drop_last() =~= before);
        }
        assert(Tree::leaves_of(Tree::graft_in(children, id, part)) =~= all.take(p) + part.leaves()
            + all.skip(p + 1));
    }
}

/// Taking a leaf out removes that leaf and keeps all others in order.
pub proof fn pruning_removes_one_leaf(t: Tree, id: ViewId)
    requires
        t.has(id),
    ensures
        t.pruned(id).leaves() == t.leaves().remove(first_position(t.leaves(), id)),
{
    without_removes_one_leaf(t, id);
    assert(Tree::leaves_of(Seq::<Tree>::empty()) =~= Seq::empty());
    assert(t.pruned(id).leaves() =~= t.leaves().remove(first_position(t.leaves(), id)));
}

pub proof fn without_removes_one_leaf(t: Tree, id: ViewId)
    requires
        t.has(id),
    ensures
        ({
            let rest = t.leaves().remove(first_position(t.leaves(), id));
            match t.without(id) {
                None => rest.len() == 0,
                Some(n) => n.leaves() == rest,
            }
        }),
        0 <= first_position(t.leaves(), id) < t.leaves().len(),
    decreases t,
{
    first_position_is_first(t.leaves(), id);
    let p = first_position(t.leaves(), id);
    let rest = t.leaves().remove(p);
    match t {
        Tree::Leaf(w) => {
            tree::first_view_of_one(w, id);
        },
        Tree::Split { first, second, .. } => {
            runs_with_leaf(first.leaves(), second.leaves(), id);
            if first.has(id) {
                without_removes_one_leaf(*first, id);
            } else {
                without_removes_one_leaf(*second, id);
            }
        },
        Tree::Stack(children) => without_removes_one_leaf_of(children, id),
        Tree::Overlay { base, overlay, .. } => {
            runs_with_leaf(base.leaves(), overlay.leaves(), id);
            if base.has(id) {
                without_removes_one_leaf(*base, id);
            } else {
                without_removes_one_leaf(*overlay, id);
            }
        },
    }
    match t.without(id) {
        None => {},
        Some(n) => assert(n.leaves() =~= rest),
    }
}

proof fn without_removes_one_leaf_of(children: Seq<Tree>, id: ViewId)
    requires
        tree::first_view(Tree::leaves_of(children), id) is Some,
    ensures
        Tree::leaves_of(Tree::without_in(children, id)) == Tree::leaves_of(children).remove(
            first_position(Tree::leaves_of(children), id),
        ),
        0 <= first_position(Tree::leaves_of(children), id) < Tree::leaves_of(children).len(),
    decreases children,
{
    first_position_is_first(Tree::leaves_of(children), id);
    if children.len() > 0 {
        let before = children.drop_last();
        let last = children.last();
        let all = Tree::leaves_of(children);
        let p = first_position(all, id);
        runs_with_leaf(Tree::leaves_of(before), last.leaves(), id);
        if tree::first_view(Tree::leaves_of(before), id) is Some {
            without_removes_one_leaf_of(before, id);
            let after = Tree::without_in(before, id).push(last);
            assert(after.drop_last() =~= Tree::without_in(before, id));
        } else {
            without_removes_one_leaf(last, id);
            match last.without(id) {
                None => {},
                Some(t) => {
                    assert(before.push(t).drop_last() =~= before);
                },
            }
        }
        assert(Tree::leaves_of(Tree::without_in(children, id)) =~= all.remove(p));
    }
}

/// Docking inserts the new leaf next to its target and keeps all others in
/// order.
pub proof fn docking_inserts_one_leaf(
    t: Tree,
    target: ViewId,
    v: LeafView,
    axis: SplitAxis,
    ratio: u32,
    after: bool,
)
    requires
        t.has(target),
    ensures
        ({
            let p = first_position(t.leaves(), target);
            t.beside(target, v, axis, ratio, after).leaves() == t.leaves().insert(
                if after {
                    p + 1
                } else {
                    p
                },
                v,
            )
        }),
{
    let p = first_position(t.leaves(), target);
    let at = if after {
        p + 1
    } else {
        p
    };
    first_position_is_first(t.leaves(), target);
    let w = tree::first_view(t.leaves(), target)->Some_0;
    let part = Tree::pair(w, v, axis, ratio, after);
    graft_exchanges_one_leaf(t, target, part);
    reveal_with_fuel(Tree::leaves, 3);
    assert(part.leaves() =~= (if after {
        seq![w, v]
    } else {
        seq![v, w]
    }));
    assert(t.beside(target, v, axis, ratio, after).leaves() =~= t.leaves().insert(at, v));
}

/// Moving a leaf beside another loses no leaf, adds none and changes none.
pub proof fn reparenting_keeps_every_leaf(
    t: Tree,
    src: ViewId,
    target: ViewId,
    axis: SplitAxis,
    ratio: u32,
    after: bool,
)
    requires
        layout_edit::can_reparent(t, src, target),
    ensures
        layout_edit::reparented(t, src, target, axis, ratio, after).leaves().to_multiset()
            == t.leaves().to_multiset(),
{
    broadcast use vstd::seq_lib::group_to_multiset_ensures;

    first_position_is_first(t.leaves(), src);
    first_position_is_first(t.leaves(), target);
    let p = first_position(t.leaves(), src);
    let v = t.leaves()[p];
    pruning_removes_one_leaf(t, src);
    let rest = t.pruned(src);
    let q = first_position(t.leaves(), target);
    first_position_is_first(rest.leaves(), target);
    if !rest.has(target) {
        let j = if q < p {
            q
        } else {
            q - 1
        };
        assert(rest.leaves()[j] == t.leaves()[q]);
    }
    docking_inserts_one_leaf(rest, target, v, axis, ratio, after);
    assert(t.leaves().to_multiset() =~= rest.leaves().to_multiset().insert(v));
}

/// With the same band on both axes the frames are the slots of the solver.
pub proof fn even_bands_are_gaps(t: Tree, container: Rect, bounds: Rect, band: u16)
    ensures
        t.frames(container, bounds, band, band) == t.allocate(container, bounds, band),
    decreases t,
{
    match t {
        Tree::Leaf(_) => {},
        Tree::Split { axis, ratio, first, second } => {
            let (a, b) = tree::split_rects(bounds, axis, ratio, band);
            even_bands_are_gaps(*first, a, a, band);
            even_bands_are_gaps(*second, b, b, band);
        },
        Tree::Stack(children) => even_bands_are_gaps_of(children, container, bounds, band),
        Tree::Overlay { base, overlay, bounds: desired, .. } => {
            even_bands_are_gaps(*base, container, bounds, band);
            let area = tree::overlay_rect(desired, container, bounds);
            even_bands_are_gaps(*overlay, area, area, band);
        },
    }
}

proof fn even_bands_are_gaps_of(children: Seq<Tree>, container: Rect, bounds: Rect, band: u16)
    ensures
        Tree::frames_of(children, container, bounds, band, band) == Tree::allocate_all(
            children,
            container,
            bounds,
            band,
        ),
    decreases children,
{
    if children.len() > 0 {
        even_bands_are_gaps_of(children.drop_last(), container, bounds, band);
        even_bands_are_gaps(children.last(), container, bounds, band);
    }
}

} // verus!
