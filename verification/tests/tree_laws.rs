use bitty_ui::decoration::Decoration;
use bitty_ui::drag::{
    detect_resize_edge, move_leaf_to_workspace, resize_floating_rect, workspace_drop_target,
    CrossWorkspaceDrop, DragHistory, DropSpec, ResizeEdge, WORKSPACE_DROP_CMD,
};
use bitty_ui::float32::Float32;
use bitty_ui::float64::Float64;
use bitty_ui::focus::{Focus, FocusDirection};
use bitty_ui::geometry::{Gaps, Point, Rect, Size, SplitAxis};
use bitty_ui::layout::{
    overlap_len, split_rect, split_rect_with_gap, LayoutNode, OverlayLayer, OverlayTier,
};
use bitty_ui::panel::PanelId;
use bitty_ui::panel_command::CommandRegistry;
use bitty_ui::presentation::{apply_presentation_command, PresentationMode};
use bitty_ui::provider::{
    validate_proposal, LayoutError, LayoutProvider, LogicalRect, WorkspaceSnapshot,
};
use bitty_ui::scratchpad::{ScratchpadError, ScratchpadSlot};
use bitty_ui::tilers::{DwindleProvider, GridProvider, MasterProvider};
use bitty_ui::view::{LeafView, ViewId};

fn single(value: f32) -> Float32 {
    Float32::from_bits(value.to_bits())
}

fn double(value: f64) -> Float64 {
    Float64::from_bits(value.to_bits())
}

fn leaf(id: u64) -> LayoutNode {
    LayoutNode::leaf(LeafView::new(ViewId::new(id), 1, 1))
}

fn three() -> LayoutNode {
    LayoutNode::split(
        SplitAxis::Horizontal,
        single(0.3),
        leaf(1),
        LayoutNode::split(SplitAxis::Vertical, single(0.7), leaf(2), leaf(3)),
    )
}

fn raw_ids(node: &LayoutNode) -> Vec<u64> {
    node.leaf_ids().iter().map(|id| id.get()).collect()
}

#[test]
fn ratios_divide_like_the_machine() {
    for ratio in [0.1f32, 0.25, 1.0 / 3.0, 0.5, 0.618, 0.9] {
        for total in [2u16, 3, 7, 80, 333, 65535] {
            let (first, second) =
                split_rect(Rect::new(0, 0, total, 1), SplitAxis::Horizontal, single(ratio));
            let raw = (f32::from(total) * ratio).floor() as u32;
            let want = raw.clamp(1, u32::from(total) - 1) as u16;
            assert_eq!((first.width, second.width), (want, total - want));
            assert_eq!(second.x, want);
        }
    }
}

#[test]
fn odd_ratios_fall_back_or_clamp() {
    let area = Rect::new(0, 0, 100, 1);
    for (ratio, want) in [
        (f32::NAN, 50),
        (f32::INFINITY, 50),
        (-1.0, 10),
        (0.0, 10),
        (2.0, 90),
        (0.95, 90),
    ] {
        let (first, _) = split_rect(area, SplitAxis::Horizontal, single(ratio));
        assert_eq!(first.width, want);
    }
}

#[test]
fn every_cell_belongs_to_one_leaf() {
    let area = Rect::new(3, 5, 31, 17);
    let slots = three().layout(area);
    assert_eq!(slots.len(), 3);
    for x in 0..40u16 {
        for y in 0..30u16 {
            let point = Point::new(x, y);
            let owners = slots.iter().filter(|(_, r)| r.contains_point(point)).count();
            assert_eq!(owners, usize::from(area.contains_point(point)));
        }
    }
}

#[test]
fn gaps_take_their_band_and_no_more() {
    let area = Rect::new(0, 0, 31, 17);
    let slots = three().layout_with_gaps(area, Gaps::new(2, 1));
    for (_, rect) in &slots {
        assert!(Rect::new(1, 1, 29, 15).contains(*rect));
    }
    let (first, second) = split_rect_with_gap(area, SplitAxis::Horizontal, single(0.5), 3);
    assert_eq!((first.width, second.x, second.width), (14, 17, 14));
    let (only, none) =
        split_rect_with_gap(Rect::new(0, 0, 2, 1), SplitAxis::Horizontal, single(0.5), 9);
    assert_eq!((only.width, none.width), (1, 0));
}

#[test]
fn docking_and_pruning_undo_each_other() {
    let mut tree = three();
    let view = LeafView::new(ViewId::new(9), 1, 1);
    assert!(tree.insert_beside(ViewId::new(2), &view, SplitAxis::Vertical, single(0.5), true));
    assert_eq!(raw_ids(&tree), vec![1, 2, 9, 3]);
    assert_eq!(tree.remove_leaf(ViewId::new(9)).map(|v| v.id()), Some(ViewId::new(9)));
    assert_eq!(tree, three());
    assert!(!tree.insert_beside(ViewId::new(7), &view, SplitAxis::Vertical, single(0.5), true));
    assert!(tree.remove_leaf(ViewId::new(7)).is_none());
    assert_eq!(tree, three());
}

#[test]
fn reparenting_keeps_every_leaf() {
    let mut tree = three();
    assert!(tree.reparent_leaf(
        ViewId::new(1),
        ViewId::new(3),
        SplitAxis::Horizontal,
        single(0.5),
        false,
    ));
    assert_eq!(raw_ids(&tree), vec![2, 1, 3]);
    assert!(!tree.reparent_leaf(
        ViewId::new(1),
        ViewId::new(1),
        SplitAxis::Horizontal,
        single(0.5),
        false,
    ));
    assert_eq!(tree.leaf_count(), 3);
}

#[test]
fn a_set_ratio_is_read_back() {
    let mut tree = three();
    assert!(tree.set_split_ratio_at(&[1], single(0.25)));
    assert_eq!(tree.split_ratio_at(&[1]), Some(single(0.25)));
    assert_eq!(tree.split_ratio_at(&[]), Some(single(0.3)));
    assert!(tree.set_split_ratio_at(&[], single(5.0)));
    assert_eq!(tree.split_ratio_at(&[]), Some(single(0.9)));
    assert!(!tree.set_split_ratio_at(&[0], single(0.5)));
    assert_eq!(tree.split_ratio_at(&[0]), None);
    assert_eq!(raw_ids(&tree), vec![1, 2, 3]);
}

#[test]
fn dragging_moves_the_ratio_by_cells() {
    let mut tree = LayoutNode::split(SplitAxis::Horizontal, single(0.5), leaf(1), leaf(2));
    assert!(tree.resize_split_by_drag(&[], 8, 80));
    assert_eq!(tree.split_ratio_at(&[]), Some(single(0.5 + 8.0 / 80.0)));
    assert!(tree.resize_split_by_drag(&[], -800, 80));
    assert_eq!(tree.split_ratio_at(&[]), Some(single(0.1)));
}

#[test]
fn reflow_gives_leaves_their_slots() {
    let mut tree = three();
    let area = Rect::new(0, 0, 40, 20);
    let slots = tree.resize(area);
    assert_eq!(slots, tree.layout(area));
    for (id, rect) in slots {
        let view = tree.find_leaf(id).expect("leaf");
        assert_eq!((view.cols(), view.rows()), (rect.width as usize, rect.height as usize));
        assert_eq!(view.origin(), Point::new(rect.x, rect.y));
    }
    tree.reflow_size(Size::new(40, 20));
    assert_eq!(tree.layout(area).len(), 3);
}

#[test]
fn hits_find_the_leaf_under_the_point() {
    let area = Rect::new(0, 0, 40, 20);
    let tree = three();
    for (id, rect) in tree.layout(area) {
        let corner = Point::new(rect.x, rect.y);
        assert_eq!(tree.hit_test_leaf(area, Gaps::zero(), corner), Some(id));
        assert_eq!(workspace_drop_target(&tree, area, Gaps::zero(), corner), Some(id));
    }
    assert_eq!(tree.hit_test_leaf(area, Gaps::zero(), Point::new(40, 0)), None);
}

#[test]
fn gaps_leave_overlays_in_place() {
    let area = Rect::new(0, 0, 80, 24);
    let spot = Rect::new(10, 5, 20, 10);
    let tree = LayoutNode::overlay(leaf(1), leaf(2), spot);
    let slots = tree.layout_with_gaps(area, Gaps::new(0, 2));
    assert_eq!(slots[0].1, Rect::new(2, 2, 76, 20));
    assert_eq!(slots[1].1, spot);
    let stacked = LayoutNode::stack(vec![leaf(3), LayoutNode::overlay(tree, leaf(4), spot)]);
    let slots = stacked.layout_with_gaps(area, Gaps::new(1, 2));
    assert_eq!((slots[2].1, slots[3].1), (spot, spot));
    let edge = LayoutNode::overlay(leaf(1), leaf(2), Rect::new(0, 0, 5, 5));
    assert_eq!(edge.layout_with_gaps(area, Gaps::new(0, 2))[1].1, Rect::new(2, 2, 3, 3));
    let moved = edge.layout_with_gaps(Rect::new(7, 3, 80, 24), Gaps::new(0, 2));
    assert_eq!(moved[1].1, Rect::new(9, 5, 3, 3));
    let split = LayoutNode::split(
        SplitAxis::Horizontal,
        single(0.5),
        leaf(5),
        LayoutNode::overlay(leaf(6), leaf(7), Rect::new(1, 1, 4, 4)),
    );
    let slots = split.layout_with_gaps(area, Gaps::new(0, 2));
    assert_eq!(slots[2].1, Rect::new(slots[1].1.x + 1, slots[1].1.y + 1, 4, 4));
    let dressed = LayoutNode::overlay(leaf(1), leaf(2), spot)
        .layout_with_decoration(area, Decoration::new(0, 2, 0, 0));
    assert_eq!(dressed[1].1.frame, spot);
}

#[test]
fn floating_rectangles_outside_come_back_with_the_minimum() {
    let area = Rect::new(0, 0, 80, 24);
    let outside = Rect::new(100, 50, 10, 10);
    for edge in [ResizeEdge::Right, ResizeEdge::TopLeft, ResizeEdge::Bottom] {
        let out = resize_floating_rect(outside, edge, 0, 0, area);
        assert_eq!(out, Rect::new(79, 23, 1, 1));
    }
    let none = Rect::new(5, 5, 0, 0);
    let out = resize_floating_rect(outside, ResizeEdge::Right, 1, 1, none);
    assert_eq!((out.width, out.height), (0, 0));
}

#[test]
fn numbers_compare_as_numbers() {
    assert_eq!(single(0.0), single(-0.0));
    assert_ne!(single(f32::NAN), single(f32::NAN));
    assert_eq!(single(f32::INFINITY), single(f32::INFINITY));
    assert_ne!(single(1.0), single(-1.0));
    assert_eq!(double(0.0), double(-0.0));
    assert_ne!(double(f64::NAN), double(f64::NAN));
    assert_eq!(double(2.5), double(2.5));
    let split = |ratio: f32| LayoutNode::Split {
        axis: SplitAxis::Horizontal,
        ratio: single(ratio),
        first: Box::new(leaf(1)),
        second: Box::new(leaf(2)),
    };
    assert_eq!(split(0.0), split(-0.0));
    assert_ne!(split(f32::NAN), split(f32::NAN));
    assert_ne!(
        LayoutError::RatioOutOfBounds { ratio: single(f32::NAN) },
        LayoutError::RatioOutOfBounds { ratio: single(f32::NAN) }
    );
}

#[test]
fn scaled_gaps_of_unit_cells_are_the_gaps() {
    let area = Rect::new(0, 0, 80, 24);
    let gaps = Gaps::new(1, 2);
    let plain = three().layout_with_gaps(area, gaps);
    for scale in [0.5, 1.0, 2.0, f64::NAN] {
        let dressed = three().layout_with_decoration_scaled(
            area,
            Decoration::new(0, 0, 0, 0),
            double(scale),
            (1, 1),
            gaps,
        );
        for (k, slot) in plain.iter().enumerate() {
            assert_eq!((dressed[k].0, dressed[k].1.frame), *slot);
        }
    }
}

#[test]
fn overlays_count_from_their_container() {
    let tree = LayoutNode::overlay(leaf(1), leaf(2), Rect::new(0, 0, 5, 5));
    let area = Rect::new(10, 10, 20, 20);
    assert_eq!(
        tree.layout(area),
        vec![(ViewId::new(1), area), (ViewId::new(2), Rect::new(10, 10, 5, 5))]
    );
    let clipped = LayoutNode::overlay(leaf(1), leaf(2), Rect::new(15, 18, 50, 50));
    assert_eq!(clipped.layout(area)[1].1, Rect::new(25, 28, 5, 2));
    let outside = LayoutNode::overlay(leaf(1), leaf(2), Rect::new(20, 0, 5, 5));
    assert_eq!(outside.layout(area)[1].1, Rect::zero());
    let gapped = tree.layout_with_gaps(Rect::new(0, 0, 20, 20), Gaps::new(0, 3));
    assert_eq!(gapped[1].1, Rect::new(3, 3, 2, 2));
    let framed = tree.layout_with_decoration(area, Decoration::zero());
    assert_eq!(framed[1].1.frame, Rect::new(10, 10, 5, 5));
    let nested = LayoutNode::split(SplitAxis::Horizontal, single(0.5), leaf(3), tree);
    assert_eq!(nested.layout(area)[2].1, Rect::new(20, 10, 5, 5));
}

#[test]
fn layers_compose_by_tier() {
    let area = Rect::new(0, 0, 10, 10);
    let layer = |tier: OverlayTier, id: u64| OverlayLayer::new(tier, leaf(id), area);
    let tree = LayoutNode::overlay_stack(
        leaf(1),
        vec![
            layer(OverlayTier::TOP, 4),
            layer(OverlayTier::BOTTOM, 2),
            layer(OverlayTier::BOTTOM, 3),
        ],
    );
    assert_eq!(raw_ids(&tree), vec![1, 2, 3, 4]);
    assert_eq!(tree.overlay_tier(), Some(OverlayTier::TOP));
}

#[test]
fn modes_move_no_slot() {
    let area = Rect::new(0, 0, 40, 20);
    let mut tree = three();
    let before = tree.layout(area);
    let mode = apply_presentation_command(
        &mut tree,
        "bitty.workspace:presentation-floating",
        ViewId::new(2),
    );
    assert_eq!(mode, Ok(PresentationMode::Floating));
    assert_eq!(tree.layout(area), before);
}

#[test]
fn next_and_previous_undo_each_other() {
    let tree = three();
    for id in [1, 2, 3] {
        let focus = Focus::with_focus(ViewId::new(id));
        let next = focus.next(&tree).expect("next");
        assert_eq!(Focus::with_focus(next).prev(&tree), Some(ViewId::new(id)));
    }
    let focus = Focus::with_focus(ViewId::new(3));
    let area = Rect::new(0, 0, 40, 20);
    assert_eq!(focus.advance(&tree, area, FocusDirection::Up), Some(ViewId::new(2)));
    assert_eq!(focus.advance(&tree, area, FocusDirection::Left), Some(ViewId::new(1)));
    assert_eq!(overlap_len(0, 10, 5, 10), 5);
    assert_eq!(overlap_len(0, 5, 5, 10), 0);
}

#[test]
fn a_hidden_leaf_comes_back_in_place() {
    let mut tree = three();
    let mut slot = ScratchpadSlot::new();
    slot.stash(&mut tree, ViewId::new(2)).expect("stash");
    assert_eq!(raw_ids(&tree), vec![1, 3]);
    assert_eq!(slot.peek().map(|v| v.id()), Some(ViewId::new(2)));
    assert_eq!(slot.stash(&mut tree, ViewId::new(1)), Err(ScratchpadError::Occupied));
    assert_eq!(slot.show(&mut tree), Ok(ViewId::new(2)));
    let mut back = raw_ids(&tree);
    back.sort();
    assert_eq!(back, vec![1, 2, 3]);
    assert!(slot.is_empty());
    assert_eq!(slot.toggle(&mut tree, None), Err(ScratchpadError::MissingTarget));
}

#[test]
fn a_drop_transfers_one_leaf_and_both_sides_undo() {
    let mut registry = CommandRegistry::new();
    registry.register(PanelId::new(1), WORKSPACE_DROP_CMD).expect("register");
    let (mut src, mut dst) = (three(), leaf(9));
    let (mut left, mut right) = (DragHistory::new(), DragHistory::new());
    let anchor = DropSpec::new(ViewId::new(9), SplitAxis::Horizontal, single(0.5), true);
    let moved = move_leaf_to_workspace(
        &mut src,
        &mut left,
        &mut dst,
        &mut right,
        &registry,
        WORKSPACE_DROP_CMD,
        CrossWorkspaceDrop::new(ViewId::new(3), anchor),
    );
    assert_eq!(moved, Ok(()));
    assert_eq!((raw_ids(&src), raw_ids(&dst)), (vec![1, 2], vec![9, 3]));
    assert!(left.undo(&mut src));
    assert!(right.undo(&mut dst));
    assert_eq!(src, three());
    assert_eq!(dst, leaf(9));
}

#[test]
fn floating_rects_stay_inside() {
    let area = Rect::new(0, 0, 80, 24);
    let rect = Rect::new(10, 5, 20, 10);
    assert_eq!(
        resize_floating_rect(rect, ResizeEdge::BottomRight, 5, 3, area),
        Rect::new(10, 5, 25, 13)
    );
    for edge in [ResizeEdge::TopLeft, ResizeEdge::BottomRight, ResizeEdge::Left, ResizeEdge::Top] {
        for step in [i16::MIN, -7, 0, 7, i16::MAX] {
            let out = resize_floating_rect(rect, edge, step, step, area);
            assert!(area.contains(out));
            assert!(out.width >= 1 && out.height >= 1);
        }
    }
    assert_eq!(
        detect_resize_edge(rect, Point::new(10, 5), 1),
        Some(ResizeEdge::TopLeft)
    );
    assert!(ResizeEdge::TopLeft.is_corner());
    assert!(!ResizeEdge::Top.is_corner());
}

#[test]
fn proposals_hold_exactly_the_views() {
    let views: Vec<ViewId> = (1..=7).map(ViewId::new).collect();
    let snapshot = WorkspaceSnapshot::new(views.clone(), leaf(1));
    let area = LogicalRect::from_rect(Rect::new(0, 0, 100, 50));
    let trees = [
        DwindleProvider::new().propose(&snapshot, &views, area).expect("dwindle"),
        MasterProvider::new().propose(&snapshot, &views, area).expect("master"),
        GridProvider::new().propose(&snapshot, &views, area).expect("grid"),
    ];
    for tree in trees {
        assert_eq!(validate_proposal(&tree, &views), Ok(()));
        assert_eq!(tree.leaf_count(), 7);
    }
    assert_eq!(
        validate_proposal(&leaf(1), &views[..2]),
        Err(LayoutError::MissingView { id: 2 })
    );
    assert_eq!(
        validate_proposal(&three(), &views[..2]),
        Err(LayoutError::UnexpectedView { id: 3 })
    );
    assert!(LogicalRect::new(double(0.0), double(0.0), double(0.0), double(5.0)).is_empty());
}

#[test]
fn proposals_take_over_the_views() {
    let mut current = three();
    current
        .find_leaf_mut(ViewId::new(2))
        .expect("leaf")
        .set_presentation(PresentationMode::Fullscreen);
    let views = [ViewId::new(5), ViewId::new(2)];
    let kept = current.find_leaf(ViewId::new(2)).cloned();
    let snapshot = WorkspaceSnapshot::new(views.to_vec(), current);
    let area = LogicalRect::from_rect(Rect::new(0, 0, 100, 50));
    for tree in [
        DwindleProvider::new().propose(&snapshot, &views, area).expect("dwindle"),
        MasterProvider::new().propose(&snapshot, &views, area).expect("master"),
        GridProvider::new().propose(&snapshot, &views, area).expect("grid"),
    ] {
        assert_eq!(tree.leaf_ids(), views);
        assert_eq!(tree.find_leaf(ViewId::new(2)).cloned(), kept);
    }
}

#[test]
fn decorations_shrink_content_only() {
    let area = Rect::new(0, 0, 100, 60);
    let tree = three();
    let plain = tree.layout(area);
    for (i, (id, view)) in
        tree.layout_with_decoration(area, Decoration::zero()).into_iter().enumerate()
    {
        assert_eq!((id, view.content), plain[i]);
        assert_eq!(view.frame, view.content);
    }
    for (_, view) in tree.layout_with_decoration(area, Decoration::new(4, 6, 2, 6)) {
        assert!(view.frame.contains(view.content));
        assert_eq!(view.frame.width - view.content.width, 4);
    }
    let scaled = tree.layout_with_decoration_scaled(
        area,
        Decoration::new(0, 0, 2, 0),
        double(1.0),
        (1, 1),
        Gaps::zero(),
    );
    assert_eq!(scaled.len(), 3);
}

#[test]
fn rectangles_meet_in_shared_cells() {
    let a = Rect::new(0, 0, 10, 10);
    let b = Rect::new(5, 8, 10, 10);
    assert_eq!(a.intersection(b), Some(Rect::new(5, 8, 5, 2)));
    assert_eq!(a.intersection(b), b.intersection(a));
    assert_eq!(a.intersection(Rect::new(10, 0, 5, 5)), None);
    assert!(a.touches_or_overlaps(Rect::new(10, 0, 5, 5)));
    assert!(!a.touches_or_overlaps(Rect::new(11, 0, 5, 5)));
    assert_eq!(b.clip_to(a), Some(Rect::new(5, 8, 5, 2)));
    assert_eq!(Gaps::zero().inset_outer(a), a);
    assert_eq!(Rect::new(65535, 0, 10, 1).right(), 65545);
}
