//! Laws of layout editing: what an edit of the tree does to the rectangles of
//! its views.

use crate::float32;
use crate::geometry::{Point, Rect, SplitAxis};
use crate::layout;
use crate::layout::OverlayTier;
use crate::layout_edit;
use crate::presentation::PresentationMode;
use crate::scratchpad;
use crate::tree;
use crate::tree::Tree;
use crate::tree_laws;
use crate::view::{LeafView, ViewId};
use vstd::arithmetic::power2::*;
use vstd::prelude::*;

verus! {

/// A split that takes the place of a leaf is solved in the slot of that leaf.
#[verifier::rlimit(60)]
#[verifier::spinoff_prover]
proof fn grafted_splits_fill_the_slot(
    t: Tree,
    id: ViewId,
    part: Tree,
    container: Rect,
    bounds: Rect,
    gap_in: u16,
)
    requires
        t.has(id),
        part is Split,
    ensures
        ({
            let slots = t.allocate(container, bounds, gap_in);
            let p = tree_laws::first_position(t.leaves(), id);
            let slot = slots[p].1;
            &&& 0 <= p < slots.len() == t.leaves().len()
            &&& t.graft(id, part).allocate(container, bounds, gap_in) == slots.take(p)
                + part.allocate(slot, slot, gap_in) + slots.skip(p + 1)
        }),
    decreases t,
{
    tree_laws::first_position_is_first(t.leaves(), id);
    tree_laws::one_slot_per_leaf(t, container, bounds, gap_in);
    let slots = t.allocate(container, bounds, gap_in);
    let p = tree_laws::first_position(t.leaves(), id);
    let slot = slots[p].1;
    match t {
        Tree::Leaf(w) => {
            tree::first_view_of_one(w, id);
            assert(part.allocate(container, bounds, gap_in) == part.allocate(
                bounds,
                bounds,
                gap_in,
            ));
        },
        Tree::Split { axis, ratio, first, second } => {
            let (a, b) = tree::split_rects(bounds, axis, ratio, gap_in);
            tree_laws::runs_with_leaf(first.leaves(), second.leaves(), id);
            tree_laws::one_slot_per_leaf(*first, a, a, gap_in);
            tree_laws::one_slot_per_leaf(*second, b, b, gap_in);
            if first.has(id) {
                grafted_splits_fill_the_slot(*first, id, part, a, a, gap_in);
            } else {
                grafted_splits_fill_the_slot(*second, id, part, b, b, gap_in);
            }
        },
        Tree::Stack(children) => grafted_splits_fill_the_slot_of(
            children,
            id,
            part,
            container,
            bounds,
            gap_in,
        ),
        Tree::Overlay { base, overlay, bounds: desired, .. } => {
            let top = tree::overlay_rect(desired, container, bounds);
            tree_laws::runs_with_leaf(base.leaves(), overlay.leaves(), id);
            tree_laws::one_slot_per_leaf(*base, container, bounds, gap_in);
            tree_laws::one_slot_per_leaf(*overlay, top, top, gap_in);
            if base.has(id) {
                grafted_splits_fill_the_slot(*base, id, part, container, bounds, gap_in);
            } else {
                grafted_splits_fill_the_slot(*overlay, id, part, top, top, gap_in);
            }
        },
    }
    assert(t.graft(id, part).allocate(container, bounds, gap_in) =~= slots.take(p) + part.allocate(
        slot,
        slot,
        gap_in,
    ) + slots.skip(p + 1));
}

proof fn grafted_splits_fill_the_slot_of(
    children: Seq<Tree>,
    id: ViewId,
    part: Tree,
    container: Rect,
    bounds: Rect,
    gap_in: u16,
)
    requires
        tree::first_view(Tree::leaves_of(children), id) is Some,
        part is Split,
    ensures
        ({
            let slots = Tree::allocate_all(children, container, bounds, gap_in);
            let p = tree_laws::first_position(Tree::leaves_of(children), id);
            let slot = slots[p].1;
            &&& 0 <= p < slots.len() == Tree::leaves_of(children).len()
            &&& Tree::allocate_all(Tree::graft_in(children, id, part), container, bounds, gap_in)
                == slots.take(p) + part.allocate(slot, slot, gap_in) + slots.skip(p + 1)
        }),
    decreases children,
{
    if children.len() > 0 {
        let before = children.drop_last();
        let last = children.last();
        let all = Tree::leaves_of(children);
        let slots = Tree::allocate_all(children, container, bounds, gap_in);
        let p = tree_laws::first_position(all, id);
        let slot = slots[p].1;
        tree_laws::first_position_is_first(all, id);
        tree_laws::runs_with_leaf(Tree::leaves_of(before), last.leaves(), id);
        tree_laws::one_slot_per_leaf(Tree::Stack(before), container, bounds, gap_in);
        tree_laws::one_slot_per_leaf(last, container, bounds, gap_in);
        assert(Tree::Stack(before).leaves() == Tree::leaves_of(before));
        assert(Tree::Stack(before).allocate(container, bounds, gap_in) == Tree::allocate_all(
            before,
            container,
            bounds,
            gap_in,
        ));
        if tree::first_view(Tree::leaves_of(before), id) is Some {
            grafted_splits_fill_the_slot_of(before, id, part, container, bounds, gap_in);
            assert(Tree::graft_in(before, id, part).push(last).drop_last() =~= Tree::graft_in(
                before,
                id,
                part,
            ));
        } else {
            grafted_splits_fill_the_slot(last, id, part, container, bounds, gap_in);
            assert(before.push(last.graft(id, part)).drop_last() =~= before);
        }
        assert(Tree::allocate_all(Tree::graft_in(children, id, part), container, bounds, gap_in)
            =~= slots.take(p) + part.allocate(slot, slot, gap_in) + slots.skip(p + 1));
    }
}

/// A view that is docked to the first leaf with the id of its target shares the
/// slot of that leaf with it: the slot is split along the axis at the ratio, the
/// new view stands in the second part when it goes after its target and else in
/// the first, and no other view moves.
pub proof fn docked_views_share_the_slot(
    t: Tree,
    p: int,
    v: LeafView,
    axis: SplitAxis,
    ratio: u32,
    after: bool,
    container: Rect,
    bounds: Rect,
    gap_in: u16,
)
    requires
        0 <= p < t.leaves().len(),
        forall|j: int| 0 <= j < p ==> (#[trigger] t.leaves()[j]).key() != t.leaves()[p].key(),
    ensures
        ({
            let slots = t.allocate(container, bounds, gap_in);
            let target = t.leaves()[p];
            let (one, two) = tree::split_rects(slots[p].1, axis, ratio, gap_in);
            t.beside(target.key(), v, axis, ratio, after).allocate(container, bounds, gap_in)
                == slots.take(p) + (if after {
                seq![(target.key(), one), (v.key(), two)]
            } else {
                seq![(v.key(), one), (target.key(), two)]
            }) + slots.skip(p + 1)
        }),
{
    let id = t.leaves()[p].key();
    let slots = t.allocate(container, bounds, gap_in);
    tree_laws::first_position_is_first(t.leaves(), id);
    assert(tree_laws::first_position(t.leaves(), id) == p) by {
        let q = tree_laws::first_position(t.leaves(), id);
        if q > p {
            assert(t.leaves()[p].key() != id);
        } else if q < p {
            assert(t.leaves()[q].key() != id);
        }
    }
    let w = t.leaves()[p];
    let part = Tree::pair(w, v, axis, ratio, after);
    grafted_splits_fill_the_slot(t, id, part, container, bounds, gap_in);
    let slot = slots[p].1;
    let (one, two) = tree::split_rects(slot, axis, ratio, gap_in);
    float32::clamping_is_idempotent(ratio);
    assert(tree::split_rects(slot, axis, float32::clamped_bits(ratio), gap_in) == (
        one,
        two,
    ));
    let (f, s) = if after {
        (w, v)
    } else {
        (v, w)
    };
    assert(Tree::Leaf(f).allocate(one, one, gap_in) =~= seq![(f.key(), one)]);
    assert(Tree::Leaf(s).allocate(two, two, gap_in) =~= seq![(s.key(), two)]);
    assert(part.allocate(slot, slot, gap_in) =~= seq![(f.key(), one), (s.key(), two)]);
}

/// Docking leaves a tree without the target as it is.
pub proof fn docking_needs_its_target(
    t: Tree,
    target: ViewId,
    v: LeafView,
    axis: SplitAxis,
    ratio: u32,
    after: bool,
)
    requires
        forall|j: int| 0 <= j < t.leaves().len() ==> (#[trigger] t.leaves()[j]).key() != target,
    ensures
        t.beside(target, v, axis, ratio, after) == t,
{
    tree_laws::first_position_is_first(t.leaves(), target);
}

/// A leaf that is taken out of a split leaves its room to its sibling, and when
/// it stands deeper in a child, only that child is solved anew.
pub proof fn pruned_leaves_give_up_their_room(
    axis: SplitAxis,
    ratio: u32,
    v: LeafView,
    first: Tree,
    second: Tree,
    id: ViewId,
    container: Rect,
    bounds: Rect,
    gap_in: u16,
)
    ensures
        ({
            let split = |a: Tree, b: Tree|
                Tree::Split { axis, ratio, first: Box::new(a), second: Box::new(b) };
            let (one, two) = tree::split_rects(bounds, axis, ratio, gap_in);
            let held = |t: Tree| exists|j: int|
                0 <= j < t.leaves().len() && (#[trigger] t.leaves()[j]).key() == id;
            let after = split(first, second).pruned(id).allocate(container, bounds, gap_in);
            &&& Tree::Leaf(v).pruned(v.key()).allocate(container, bounds, gap_in) == Seq::<
                (ViewId, Rect),
            >::empty()
            &&& split(Tree::Leaf(v), second).pruned(v.key()).allocate(container, bounds, gap_in)
                == second.allocate(container, bounds, gap_in)
            &&& v.key() == id && !held(first) ==> split(first, Tree::Leaf(v)).pruned(id).allocate(
                container,
                bounds,
                gap_in,
            ) == first.allocate(container, bounds, gap_in)
            &&& held(first) && first.leaves().len() > 1 ==> after == first.pruned(id).allocate(
                one,
                one,
                gap_in,
            ) + second.allocate(two, two, gap_in)
            &&& !held(first) && held(second) && second.leaves().len() > 1 ==> after
                == first.allocate(one, one, gap_in) + second.pruned(id).allocate(two, two, gap_in)
            &&& !held(first) && !held(second) ==> after == split(first, second).allocate(
                container,
                bounds,
                gap_in,
            )
        }),
{
    let s = Tree::Split { axis, ratio, first: Box::new(first), second: Box::new(second) };
    let l = Tree::Split { axis, ratio, first: Box::new(Tree::Leaf(v)), second: Box::new(second) };
    let r = Tree::Split { axis, ratio, first: Box::new(first), second: Box::new(Tree::Leaf(v)) };
    tree_laws::first_position_is_first(first.leaves(), id);
    tree_laws::first_position_is_first(second.leaves(), id);
    tree::first_view_of_one(v, v.key());
    tree::first_view_of_runs(first.leaves(), second.leaves(), id);
    tree::first_view_of_runs(Tree::Leaf(v).leaves(), second.leaves(), v.key());
    tree::first_view_of_runs(first.leaves(), Tree::Leaf(v).leaves(), id);
    assert(Tree::Leaf(v).leaves() =~= seq![v]);
    assert(Tree::Leaf(v).without(v.key()) is None);
    assert(Tree::allocate_all(Seq::<Tree>::empty(), container, bounds, gap_in) =~= Seq::<
        (ViewId, Rect),
    >::empty());
    assert(l.has(v.key()));
    assert(l.without(v.key()) == Some(second));
    if first.has(id) {
        tree_laws::without_removes_one_leaf(first, id);
        let k = tree_laws::first_position(first.leaves(), id);
        assert(first.leaves()[k].key() == id);
    }
    if second.has(id) {
        tree_laws::without_removes_one_leaf(second, id);
        let k = tree_laws::first_position(second.leaves(), id);
        assert(second.leaves()[k].key() == id);
    }
    if v.key() == id && !first.has(id) {
        assert(r.has(id));
        assert(r.without(id) == Some(first));
    }
}

/// What is left of a stack keeps the bounds of the stack. A base or an overlay
/// that is used up leaves the other one alone, in the bounds.
pub proof fn pruned_piles_keep_their_bounds(
    children: Seq<Tree>,
    child: Tree,
    desired: Rect,
    tier: OverlayTier,
    base: Tree,
    overlay: Tree,
    id: ViewId,
    container: Rect,
    bounds: Rect,
    gap_in: u16,
)
    ensures
        ({
            let held = |t: Tree| exists|j: int|
                0 <= j < t.leaves().len() && (#[trigger] t.leaves()[j]).key() == id;
            let at = |t: Tree| t.allocate(container, bounds, gap_in);
            let pile = |a: Tree, b: Tree|
                Tree::Overlay { base: Box::new(a), overlay: Box::new(b), bounds: desired, tier };
            let taken = at(Tree::Stack(children.push(child)).pruned(id));
            &&& held(Tree::Stack(children)) ==> taken == at(Tree::Stack(children).pruned(id)) + at(
                child,
            )
            &&& !held(Tree::Stack(children)) ==> taken == at(Tree::Stack(children)) + at(
                child.pruned(id),
            )
            &&& held(base) && base.leaves().len() > 1 ==> at(pile(base, overlay).pruned(id)) == at(
                pile(base.pruned(id), overlay),
            )
            &&& !held(base) && held(overlay) && overlay.leaves().len() > 1 ==> at(
                pile(base, overlay).pruned(id),
            ) == at(pile(base, overlay.pruned(id)))
            &&& base is Leaf && held(base) ==> at(pile(base, overlay).pruned(id)) == at(overlay)
            &&& !held(base) && overlay is Leaf && held(overlay) ==> at(
                pile(base, overlay).pruned(id),
            ) == at(base)
        }),
{
    let held = |t: Tree| exists|j: int|
        0 <= j < t.leaves().len() && (#[trigger] t.leaves()[j]).key() == id;
    let full = Tree::Stack(children.push(child));
    let part = Tree::Stack(children);
    assert(children.push(child).drop_last() =~= children);
    assert(Tree::leaves_of(children.push(child)) == Tree::leaves_of(children) + child.leaves());
    assert(full.leaves() == Tree::leaves_of(children) + child.leaves());
    assert(part.leaves() == Tree::leaves_of(children));
    tree_laws::first_position_is_first(part.leaves(), id);
    tree_laws::first_position_is_first(child.leaves(), id);
    tree_laws::first_position_is_first(base.leaves(), id);
    tree_laws::first_position_is_first(overlay.leaves(), id);
    tree::first_view_of_runs(part.leaves(), child.leaves(), id);
    tree::first_view_of_runs(base.leaves(), overlay.leaves(), id);
    assert(Tree::allocate_all(Seq::<Tree>::empty(), container, bounds, gap_in) =~= Seq::<
        (ViewId, Rect),
    >::empty());
    let rest = Tree::without_in(children, id);
    assert(rest.push(child).drop_last() =~= rest);
    match child.without(id) {
        Some(t) => {
            assert(children.push(t).drop_last() =~= children);
        },
        None => {},
    }
    assert(Tree::allocate_all(children.push(child), container, bounds, gap_in)
        == Tree::allocate_all(children, container, bounds, gap_in) + child.allocate(
        container,
        bounds,
        gap_in,
    ));
    if part.has(id) {
        assert(part.leaves()[tree_laws::first_position(part.leaves(), id)].key() == id);
        assert(full.has(id));
    }
    if base.has(id) {
        tree_laws::without_removes_one_leaf(base, id);
        assert(base.leaves()[tree_laws::first_position(base.leaves(), id)].key() == id);
    }
    if overlay.has(id) {
        tree_laws::without_removes_one_leaf(overlay, id);
        assert(overlay.leaves()[tree_laws::first_position(overlay.leaves(), id)].key() == id);
    }
    let taken = full.pruned(id).allocate(container, bounds, gap_in);
    let all = children.push(child);
    assert(all.last() == child);
    assert(Tree::without_in(all, id) == (if part.has(id) {
        rest.push(child)
    } else {
        match child.without(id) {
            None => children,
            Some(t) => children.push(t),
        }
    }));
    if part.has(id) {
        assert(full.without(id) == Some(Tree::Stack(rest.push(child))));
        assert(Tree::allocate_all(rest.push(child), container, bounds, gap_in)
            == Tree::allocate_all(rest, container, bounds, gap_in) + child.allocate(
            container,
            bounds,
            gap_in,
        ));
        if rest.len() == 0 {
            assert(rest =~= Seq::empty());
        }
        assert(taken =~= part.pruned(id).allocate(container, bounds, gap_in) + child.allocate(
            container,
            bounds,
            gap_in,
        ));
    } else {
        match child.without(id) {
            Some(t) => {
                if child.has(id) {
                    assert(full.without(id) == Some(Tree::Stack(children.push(t))));
                }
                assert(Tree::allocate_all(children.push(t), container, bounds, gap_in)
                    == Tree::allocate_all(children, container, bounds, gap_in) + t.allocate(
                    container,
                    bounds,
                    gap_in,
                ));
            },
            None => {
                assert(child.pruned(id).allocate(container, bounds, gap_in) =~= Seq::empty());
                if children.len() == 0 {
                    assert(children =~= Seq::empty());
                }
            },
        }
        assert(taken =~= part.allocate(container, bounds, gap_in) + child.pruned(id).allocate(
            container,
            bounds,
            gap_in,
        ));
    }
}

/// Setting the ratio that a split has changes nothing, and setting one ratio
/// leaves the ratio at every other path as it is.
pub proof fn ratios_are_set_one_by_one(t: Tree, path: Seq<usize>, other: Seq<usize>, ratio: u32)
    ensures
        t.ratio_at(path) matches Some(r) ==> t.with_ratio_at(path, r) == t,
        other != path ==> t.with_ratio_at(path, ratio).ratio_at(other) == t.ratio_at(other),
    decreases t,
{
    if path.len() == 0 {
        if other.len() == 0 {
            assert(other =~= path);
        }
    } else {
        let rest = path.drop_first();
        let others = other.drop_first();
        if other.len() > 0 && other[0] == path[0] && others =~= rest {
            assert(other =~= seq![other[0]] + others);
            assert(path =~= seq![path[0]] + rest);
        }
        match t {
            Tree::Leaf(_) => {},
            Tree::Split { first, second, .. } => {
                ratios_are_set_one_by_one(*first, rest, others, ratio);
                ratios_are_set_one_by_one(*second, rest, others, ratio);
            },
            Tree::Stack(children) => {
                if path[0] < children.len() {
                    let k = path[0] as int;
                    ratios_are_set_one_by_one(children[k], rest, others, ratio);
                    if t.ratio_at(path) is Some {
                        let r = t.ratio_at(path)->0;
                        assert(children.update(k, children[k].with_ratio_at(rest, r)) =~= children);
                    }
                }
            },
            Tree::Overlay { base, overlay, .. } => {
                ratios_are_set_one_by_one(*base, rest, others, ratio);
                ratios_are_set_one_by_one(*overlay, rest, others, ratio);
            },
        }
    }
}

/// The view on top of a cell is that of the last slot that covers the cell.
pub proof fn hits_find_the_last_slot(slots: Seq<(ViewId, Rect)>, cell: Point)
    ensures
        ({
            let on = |k: int|
                slots[k].1.x <= cell.x < slots[k].1.x + slots[k].1.width && slots[k].1.y <= cell.y
                    < slots[k].1.y + slots[k].1.height;
            match tree::top_hit(slots, cell) {
                Some(id) => exists|k: int|
                    0 <= k < slots.len() && #[trigger] on(k) && slots[k].0 == id && forall|j: int|
                        k < j < slots.len() ==> !#[trigger] on(j),
                None => forall|k: int| 0 <= k < slots.len() ==> !#[trigger] on(k),
            }
        }),
    decreases slots.len(),
{
    let on = |k: int|
        slots[k].1.x <= cell.x < slots[k].1.x + slots[k].1.width && slots[k].1.y <= cell.y
            < slots[k].1.y + slots[k].1.height;
    if slots.len() > 0 {
        let before = slots.drop_last();
        hits_find_the_last_slot(before, cell);
        let was = |k: int|
            before[k].1.x <= cell.x < before[k].1.x + before[k].1.width && before[k].1.y <= cell.y
                < before[k].1.y + before[k].1.height;
        let n = slots.len() - 1;
        if on(n) {
            assert(tree::top_hit(slots, cell) == Some(slots[n].0));
        } else {
            assert forall|k: int| 0 <= k < n implies #[trigger] on(k) == was(k) by {}
            match tree::top_hit(before, cell) {
                Some(id) => {
                    let k = choose|k: int|
                        0 <= k < before.len() && #[trigger] was(k) && before[k].0 == id && forall|
                            j: int,
                        |
                            k < j < before.len() ==> !#[trigger] was(j);
                    assert(on(k) == was(k));
                    assert forall|j: int| k < j < slots.len() implies !#[trigger] on(j) by {
                        if j < n {
                            assert(on(j) == was(j));
                        }
                    }
                },
                None => {
                    assert forall|k: int| 0 <= k < slots.len() implies !#[trigger] on(k) by {
                        if k < n {
                            assert(on(k) == was(k));
                        }
                    }
                },
            }
        }
    }
}

/// Frames are solved as slots are, with one band for side-by-side splits and
/// another for stacked ones.
pub proof fn frames_take_the_band_of_their_axis(
    v: LeafView,
    ratio: u32,
    first: Tree,
    second: Tree,
    desired: Rect,
    tier: OverlayTier,
    container: Rect,
    bounds: Rect,
    band_x: u16,
    band_y: u16,
)
    ensures
        Tree::Leaf(v).frames(container, bounds, band_x, band_y) == seq![(v.key(), bounds)],
        ({
            let (a, b) = tree::split_rects(bounds, SplitAxis::Horizontal, ratio, band_x);
            (Tree::Split {
                axis: SplitAxis::Horizontal,
                ratio,
                first: Box::new(first),
                second: Box::new(second),
            }).frames(container, bounds, band_x, band_y) == first.frames(a, a, band_x, band_y)
                + second.frames(b, b, band_x, band_y)
        }),
        ({
            let (a, b) = tree::split_rects(bounds, SplitAxis::Vertical, ratio, band_y);
            (Tree::Split {
                axis: SplitAxis::Vertical,
                ratio,
                first: Box::new(first),
                second: Box::new(second),
            }).frames(container, bounds, band_x, band_y) == first.frames(a, a, band_x, band_y)
                + second.frames(b, b, band_x, band_y)
        }),
        ({
            let top = tree::overlay_rect(desired, container, bounds);
            (Tree::Overlay {
                base: Box::new(first),
                overlay: Box::new(second),
                bounds: desired,
                tier,
            }).frames(container, bounds, band_x, band_y) == first.frames(
                container,
                bounds,
                band_x,
                band_y,
            ) + second.frames(top, top, band_x, band_y)
        }),
{
}

/// An overlay covers the cells of its rectangle, counted from the upper left
/// corner of the container, that lie in the bounds.
pub proof fn overlays_cover_their_cells(
    desired: Rect,
    container: Rect,
    bounds: Rect,
    cx: int,
    cy: int,
)
    requires
        container.x + desired.x <= 65535,
        container.y + desired.y <= 65535,
    ensures
        ({
            let r = tree::overlay_rect(desired, container, bounds);
            (r.x <= cx < r.x + r.width && r.y <= cy < r.y + r.height) <==> container.x + desired.x
                <= cx < container.x + desired.x + desired.width && container.y + desired.y <= cy
                < container.y + desired.y + desired.height && bounds.x <= cx < bounds.x
                + bounds.width && bounds.y <= cy < bounds.y + bounds.height
        }),
{
}

/// A leaf that is moved leaves its old place, as a pruned one does, and then
/// shares the slot of its target, as a docked one does.
pub proof fn moved_leaves_share_the_slot(
    t: Tree,
    src: ViewId,
    v: LeafView,
    p: int,
    axis: SplitAxis,
    ratio: u32,
    after: bool,
    container: Rect,
    bounds: Rect,
    gap_in: u16,
)
    requires
        v.key() == src,
        exists|k: int|
            0 <= k < t.leaves().len() && #[trigger] t.leaves()[k] == v && forall|j: int|
                0 <= j < k ==> (#[trigger] t.leaves()[j]).key() != src,
        0 <= p < t.pruned(src).leaves().len(),
        forall|j: int|
            0 <= j < p ==> (#[trigger] t.pruned(src).leaves()[j]).key() != t.pruned(
                src,
            ).leaves()[p].key(),
    ensures
        ({
            let target = t.pruned(src).leaves()[p].key();
            let slots = t.pruned(src).allocate(container, bounds, gap_in);
            let (one, two) = tree::split_rects(slots[p].1, axis, ratio, gap_in);
            layout_edit::reparented(t, src, target, axis, ratio, after).allocate(
                container,
                bounds,
                gap_in,
            ) == slots.take(p) + (if after {
                seq![(target, one), (src, two)]
            } else {
                seq![(src, one), (target, two)]
            }) + slots.skip(p + 1)
        }),
{
    tree_laws::first_position_is_first(t.leaves(), src);
    let q = tree_laws::first_position(t.leaves(), src);
    let k = choose|k: int|
        0 <= k < t.leaves().len() && #[trigger] t.leaves()[k] == v && forall|j: int|
            0 <= j < k ==> (#[trigger] t.leaves()[j]).key() != src;
    if q < k {
        assert(t.leaves()[q].key() != src);
    } else if q > k {
        assert(t.leaves()[k].key() != src);
    }
    docked_views_share_the_slot(
        t.pruned(src),
        p,
        v,
        axis,
        ratio,
        after,
        container,
        bounds,
        gap_in,
    );
}

/// A view that comes back from the scratchpad takes one half of the slot of its
/// neighbour, side by side with it; of the first view when the neighbour is gone,
/// and then it stands behind it; and the whole area when no view is left.
pub proof fn shown_views_take_half_a_slot(
    t: Tree,
    v: LeafView,
    neighbour: Option<ViewId>,
    after: bool,
    p: int,
    container: Rect,
    bounds: Rect,
    gap_in: u16,
)
    requires
        0 <= p < t.leaves().len(),
        forall|j: int| 0 <= j < p ==> (#[trigger] t.leaves()[j]).key() != t.leaves()[p].key(),
        (exists|j: int|
            0 <= j < t.leaves().len() && neighbour == Some((#[trigger] t.leaves()[j]).key()))
            ==> neighbour == Some(t.leaves()[p].key()),
        !(exists|j: int|
            0 <= j < t.leaves().len() && neighbour == Some((#[trigger] t.leaves()[j]).key()))
            ==> p == 0,
    ensures
        ({
            let slots = t.allocate(container, bounds, gap_in);
            let target = t.leaves()[p].key();
            let (one, two) = tree::split_rects(
                slots[p].1,
                SplitAxis::Horizontal,
                0x3F00_0000,
                gap_in,
            );
            scratchpad::restored(t, v, neighbour, after).allocate(container, bounds, gap_in)
                == slots.take(p) + (if after || neighbour != Some(target) {
                seq![(target, one), (v.key(), two)]
            } else {
                seq![(v.key(), one), (target, two)]
            }) + slots.skip(p + 1)
        }),
        scratchpad::restored(Tree::Stack(Seq::empty()), v, neighbour, after).allocate(
            container,
            bounds,
            gap_in,
        ) == seq![(v.key(), bounds)],
{
    let target = t.leaves()[p].key();
    docked_views_share_the_slot(
        t,
        p,
        v,
        SplitAxis::Horizontal,
        0x3F00_0000,
        after || neighbour != Some(target),
        container,
        bounds,
        gap_in,
    );
    match neighbour {
        Some(a) => {
            tree_laws::first_position_is_first(t.leaves(), a);
            if t.has(a) {
                let k = tree_laws::first_position(t.leaves(), a);
                assert(neighbour == Some(t.leaves()[k].key()));
            } else {
                if exists|j: int|
                    0 <= j < t.leaves().len() && neighbour == Some(
                        (#[trigger] t.leaves()[j]).key(),
                    ) {
                    assert(t.leaves()[p].key() == a);
                }
            }
        },
        None => {},
    }
    assert(Tree::leaves_of(Seq::<Tree>::empty()) =~= Seq::empty());
    assert(Tree::Stack(Seq::empty()).leaves().len() == 0);
}

/// The slots of a split whose divider is dragged: the children keep their order
/// and the axis, and the ratio moves as [`float32::drags_move_the_ratio`] says.
pub proof fn dragged_dividers_move(
    axis: SplitAxis,
    ratio: u32,
    first: Tree,
    second: Tree,
    delta: int,
    total: nat,
    container: Rect,
    bounds: Rect,
    gap_in: u16,
)
    requires
        0x3DCC_CCCD <= ratio <= 0x3F66_6666,
        total > 0,
    ensures
        ({
            let t = Tree::Split { axis, ratio, first: Box::new(first), second: Box::new(second) };
            let dragged = layout_edit::drag_resized(t, Seq::empty(), delta, total);
            let out = float32::dragged_bits(ratio, delta, total);
            let (one, two) = tree::split_rects(bounds, axis, out, gap_in);
            dragged.allocate(container, bounds, gap_in) == first.allocate(one, one, gap_in)
                + second.allocate(two, two, gap_in)
        }),
{
    float32::drags_move_the_ratio(ratio, delta, total);
    float32::clamping_is_idempotent(float32::dragged_bits(ratio, delta, total));
}

/// Layers are laid over a base from the lowest tier to the highest, those of one
/// tier in the order in which they were given.
pub proof fn layers_rise_by_tier(sheets: Seq<(OverlayTier, Tree, Rect)>, tier: OverlayTier)
    ensures
        layout::of_tier(sheets, tier) == sheets.filter(
            |s: (OverlayTier, Tree, Rect)| s.0 == tier,
        ),
        layout::tier_sorted(sheets) == layout::of_tier(sheets, OverlayTier::Editor)
            + layout::of_tier(sheets, OverlayTier::Float) + layout::of_tier(
            sheets,
            OverlayTier::Popup,
        ) + layout::of_tier(sheets, OverlayTier::Messages),
    decreases sheets.len(),
{
    reveal(Seq::filter);
    if sheets.len() > 0 {
        layers_rise_by_tier(sheets.drop_last(), tier);
    }
}

/// Each layer lies over everything below it: its views come last, in its
/// rectangle of the container.
pub proof fn later_layers_lie_on_top(
    base: Tree,
    sheets: Seq<(OverlayTier, Tree, Rect)>,
    tier: OverlayTier,
    node: Tree,
    desired: Rect,
    container: Rect,
    bounds: Rect,
    gap_in: u16,
)
    ensures
        layout::overlaid(base, Seq::empty()) == base,
        ({
            let top = tree::overlay_rect(desired, container, bounds);
            layout::overlaid(base, sheets.push((tier, node, desired))).allocate(
                container,
                bounds,
                gap_in,
            ) == layout::overlaid(base, sheets).allocate(container, bounds, gap_in)
                + node.allocate(top, top, gap_in)
        }),
{
    assert(sheets.push((tier, node, desired)).drop_last() =~= sheets);
}

/// A container is split across when its height, times the multiplier, is above
/// its width, and else side by side. An empty container is split side by side. A
/// multiplier that is not a positive number counts as one.
pub proof fn tall_containers_are_split_across(container: Rect, multiplier: u32)
    ensures
        ({
            let exponent = multiplier as nat / 0x80_0000;
            let fraction = multiplier as nat % 0x80_0000;
            let m = if exponent == 0 {
                fraction
            } else {
                fraction + 0x80_0000
            };
            let e = if exponent == 0 {
                1
            } else {
                exponent
            };
            let product = container.height as nat * m * pow2(e);
            let limit = container.width as nat * pow2(150);
            let empty = container.width == 0 || container.height == 0;
            let axis = layout::smart_axis(container, multiplier);
            &&& empty ==> axis == SplitAxis::Horizontal
            &&& !empty && !(0 < multiplier < 0x7F80_0000) ==> axis == (if container.height
                > container.width {
                SplitAxis::Vertical
            } else {
                SplitAxis::Horizontal
            })
            &&& 0 < multiplier < 0x7F80_0000 && product <= limit ==> axis == SplitAxis::Horizontal
            &&& !empty && 0 < multiplier < 0x7F80_0000 && 0xFF_FFFF * product > 0x100_0000 * limit
                ==> axis == SplitAxis::Vertical
        }),
{
    let h = container.height as nat;
    let w = container.width as nat;
    if 0 < multiplier < 0x7F80_0000 {
        assert(float32::is_positive(multiplier));
        float32::products_compare_as_numbers(h, multiplier, w);
    } else {
        assert(!float32::is_positive(multiplier));
        float32::products_compare_as_numbers(h, 0x3F80_0000, w);
        lemma_pow2_adds(127, 23);
        lemma2_to64();
        lemma_pow2_pos(127);
        let x = pow2(127);
        assert(pow2(150) == 0x80_0000 * x);
        assert(h * 0x80_0000 * x == h * pow2(150)) by (nonlinear_arith)
            requires
                pow2(150) == 0x80_0000 * x,
        ;
        if h <= w {
            assert(h * pow2(150) <= w * pow2(150)) by (nonlinear_arith)
                requires
                    h <= w,
            ;
        } else {
            let y = pow2(150);
            assert(0xFF_FFFF * (h * y) > 0x100_0000 * (w * y)) by (nonlinear_arith)
                requires
                    h >= w + 1,
                    w <= 65535,
                    y > 0,
            ;
        }
    }
}

/// A placed view is as wide and as high as its rectangle and stands at its upper
/// left corner; its id and its mode stay. A view that is shown in another mode
/// keeps its id, size and place.
pub proof fn placed_views_take_their_rectangle(v: LeafView, r: Rect, mode: PresentationMode)
    ensures
        v.placed(r).key() == v.key(),
        v.placed(r).columns() == r.width,
        v.placed(r).lines() == r.height,
        v.placed(r).corner().x == r.x,
        v.placed(r).corner().y == r.y,
        v.placed(r).mode() == v.mode(),
        v.displayed(mode).key() == v.key(),
        v.displayed(mode).columns() == v.columns(),
        v.displayed(mode).lines() == v.lines(),
        v.displayed(mode).corner() == v.corner(),
        v.displayed(mode).mode() == mode,
{
    broadcast use LeafView::parts_of;

}

/// A leaf is moved beside another one, never beside itself, and only when both
/// are there.
pub proof fn moves_need_two_leaves(t: Tree, src: ViewId, target: ViewId)
    ensures
        layout_edit::can_reparent(t, src, target) <==> src != target && t.ids().contains(src)
            && t.ids().contains(target),
{
    lemma_has_is_listed(t, src);
    lemma_has_is_listed(t, target);
}

proof fn lemma_has_is_listed(t: Tree, id: ViewId)
    ensures
        t.has(id) <==> t.ids().contains(id),
{
    tree_laws::first_position_is_first(t.leaves(), id);
    if t.has(id) {
        let k = tree_laws::first_position(t.leaves(), id);
        assert(t.ids()[k] == id);
    } else if t.ids().contains(id) {
        let k = choose|k: int| 0 <= k < t.ids().len() && t.ids()[k] == id;
        assert(t.leaves()[k].key() == id);
    }
}

/// A leaf that is docked to becomes a split of the two leaves, with the ratio
/// clamped, and nothing else of the tree changes: to put a leaf in its own place
/// leaves the tree as it is.
pub proof fn docking_makes_one_split(
    w: LeafView,
    v: LeafView,
    axis: SplitAxis,
    ratio: u32,
    t: Tree,
    id: ViewId,
)
    ensures
        ({
            let split = |a: LeafView, b: LeafView|
                Tree::Split {
                    axis,
                    ratio: float32::clamped_bits(ratio),
                    first: Box::new(Tree::Leaf(a)),
                    second: Box::new(Tree::Leaf(b)),
                };
            &&& Tree::Leaf(w).beside(w.key(), v, axis, ratio, true) == split(w, v)
            &&& Tree::Leaf(w).beside(w.key(), v, axis, ratio, false) == split(v, w)
        }),
        match tree::first_view(t.leaves(), id) {
            Some(own) => t.graft(id, Tree::Leaf(own)) == t && t.put(id, own) == t,
            None => t.graft(id, Tree::Leaf(v)) == t && t.put(id, v) == t,
        },
    decreases t,
{
    tree::first_view_of_one(w, w.key());
    assert(Tree::Leaf(w).leaves() =~= seq![w]);
    match t {
        Tree::Leaf(own) => {
            tree::first_view_of_one(own, id);
        },
        Tree::Split { first, second, .. } => {
            tree::first_view_of_runs(first.leaves(), second.leaves(), id);
            docking_makes_one_split(w, v, axis, ratio, *first, id);
            docking_makes_one_split(w, v, axis, ratio, *second, id);
        },
        Tree::Stack(children) => lemma_own_leaf(children, v, id),
        Tree::Overlay { base, overlay, .. } => {
            tree::first_view_of_runs(base.leaves(), overlay.leaves(), id);
            docking_makes_one_split(w, v, axis, ratio, *base, id);
            docking_makes_one_split(w, v, axis, ratio, *overlay, id);
        },
    }
}

proof fn lemma_own_leaf(children: Seq<Tree>, v: LeafView, id: ViewId)
    ensures
        match tree::first_view(Tree::leaves_of(children), id) {
            Some(own) => Tree::graft_in(children, id, Tree::Leaf(own)) == children && Tree::put_in(
                children,
                id,
                own,
            ) == children,
            None => Tree::graft_in(children, id, Tree::Leaf(v)) == children && Tree::put_in(
                children,
                id,
                v,
            ) == children,
        },
    decreases children,
{
    if children.len() > 0 {
        let before = children.drop_last();
        let last = children.last();
        tree::first_view_of_runs(Tree::leaves_of(before), last.leaves(), id);
        lemma_own_leaf(before, v, id);
        docking_makes_one_split(v, v, SplitAxis::Horizontal, 0, last, id);
        assert(before.push(last) =~= children);
    }
}

/// A split or an overlay that loses one child becomes the other one, and keeps
/// its shape while both still hold a view.
pub proof fn lone_children_take_the_place(
    axis: SplitAxis,
    ratio: u32,
    first: Tree,
    second: Tree,
    desired: Rect,
    tier: OverlayTier,
    id: ViewId,
)
    requires
        first.has(id),
    ensures
        ({
            let split = |a: Tree, b: Tree|
                Tree::Split { axis, ratio, first: Box::new(a), second: Box::new(b) };
            let pile = |a: Tree, b: Tree|
                Tree::Overlay { base: Box::new(a), overlay: Box::new(b), bounds: desired, tier };
            let swap = !second.has(id);
            &&& first is Leaf ==> split(first, second).pruned(id) == second && pile(
                first,
                second,
            ).pruned(id) == second
            &&& first is Leaf && swap ==> split(second, first).pruned(id) == second && pile(
                second,
                first,
            ).pruned(id) == second
            &&& first.leaves().len() > 1 ==> split(first, second).pruned(id) == split(
                first.pruned(id),
                second,
            ) && pile(first, second).pruned(id) == pile(first.pruned(id), second)
            &&& first.leaves().len() > 1 && swap ==> split(second, first).pruned(id) == split(
                second,
                first.pruned(id),
            ) && pile(second, first).pruned(id) == pile(second, first.pruned(id))
        }),
{
    tree::first_view_of_runs(first.leaves(), second.leaves(), id);
    tree::first_view_of_runs(second.leaves(), first.leaves(), id);
    tree_laws::without_removes_one_leaf(first, id);
    let a = Tree::Split { axis, ratio, first: Box::new(first), second: Box::new(second) };
    let b = Tree::Split { axis, ratio, first: Box::new(second), second: Box::new(first) };
    let c = Tree::Overlay {
        base: Box::new(first),
        overlay: Box::new(second),
        bounds: desired,
        tier,
    };
    let d = Tree::Overlay {
        base: Box::new(second),
        overlay: Box::new(first),
        bounds: desired,
        tier,
    };
    assert(a.leaves() == first.leaves() + second.leaves());
    assert(b.leaves() == second.leaves() + first.leaves());
    assert(c.leaves() == first.leaves() + second.leaves());
    assert(d.leaves() == second.leaves() + first.leaves());
    assert(a.has(id) && b.has(id) && c.has(id) && d.has(id));
    if first is Leaf {
        assert(first.without(id) is None);
        assert(a.without(id) == Some(second));
        assert(c.without(id) == Some(second));
    } else if first.leaves().len() > 1 {
        assert(first.without(id) is Some);
    }
}

} // verus!
