use bitty_ui::float32::Float32;
use bitty_ui::geometry::{Gaps, Rect, SplitAxis};
use bitty_ui::layout::{
    LayoutNode, OverlayLayer, OverlayTier, smart_split_axis, split_rect, split_rect_with_gap,
};
use bitty_ui::view::{LeafView, ViewId};

fn single(value: f32) -> Float32 {
    Float32::from_bits(value.to_bits())
}

fn view(id: u64, cols: usize, rows: usize) -> LeafView {
    LeafView::new(ViewId::new(id), cols, rows)
}

#[test]
fn split_horizontal_covers_exactly() {
    let bounds = Rect::new(0, 0, 80, 24);
    let node = LayoutNode::split(
        SplitAxis::Horizontal,
        single(0.5),
        LayoutNode::leaf(view(1, 10, 10)),
        LayoutNode::leaf(view(2, 10, 10)),
    );
    let alloc = node.layout(bounds);
    assert_eq!(alloc.len(), 2);
    let (_, a) = alloc[0];
    let (_, b) = alloc[1];
    assert_eq!(a.width + b.width, 80);
    assert_eq!(a.height, 24);
    assert_eq!(b.height, 24);
    assert_eq!(a.x, 0);
    assert_eq!(b.x, a.width);
}

#[test]
fn split_vertical_with_ratio_floor() {
    let bounds = Rect::new(0, 0, 10, 10);
    let node = LayoutNode::split(
        SplitAxis::Vertical,
        single(0.3),
        LayoutNode::leaf(view(1, 1, 1)),
        LayoutNode::leaf(view(2, 1, 1)),
    );
    let alloc = node.layout(bounds);
    let (_, a) = alloc[0];
    let (_, b) = alloc[1];
    assert_eq!(a.height, 3);
    assert_eq!(b.height, 7);
    assert_eq!(a.height + b.height, 10);
}

#[test]
fn split_ratio_clamped() {
    let n = LayoutNode::split(
        SplitAxis::Horizontal,
        single(5.0),
        LayoutNode::leaf(view(1, 1, 1)),
        LayoutNode::leaf(view(2, 1, 1)),
    );
    if let LayoutNode::Split { ratio, .. } = n {
        assert_eq!(ratio, single(0.90));
    } else {
        panic!("expected split");
    }
    let n2 = LayoutNode::split(
        SplitAxis::Horizontal,
        single(f32::NAN),
        LayoutNode::leaf(view(1, 1, 1)),
        LayoutNode::leaf(view(2, 1, 1)),
    );
    if let LayoutNode::Split { ratio, .. } = n2 {
        assert_eq!(ratio, single(0.5));
    } else {
        panic!("expected split");
    }
}

#[test]
fn stack_all_share_bounds() {
    let bounds = Rect::new(1, 2, 10, 10);
    let node = LayoutNode::stack(vec![
        LayoutNode::leaf(view(1, 1, 1)),
        LayoutNode::leaf(view(2, 1, 1)),
        LayoutNode::leaf(view(3, 1, 1)),
    ]);
    let alloc = node.layout(bounds);
    assert_eq!(alloc.len(), 3);
    for (_, r) in alloc {
        assert_eq!(r, bounds);
    }
}

#[test]
fn overlay_base_and_clipped_overlay() {
    let bounds = Rect::new(0, 0, 80, 24);
    let base = LayoutNode::leaf(view(1, 1, 1));
    let over = LayoutNode::leaf(view(2, 1, 1));
    let node = LayoutNode::overlay(base, over, Rect::new(10, 5, 20, 10));
    let alloc = node.layout(bounds);
    assert_eq!(alloc.len(), 2);
    let (_, b) = alloc[0];
    let (_, o) = alloc[1];
    assert_eq!(b, bounds);
    assert_eq!(o, Rect::new(10, 5, 20, 10));
    let node2 = LayoutNode::overlay(
        LayoutNode::leaf(view(1, 1, 1)),
        LayoutNode::leaf(view(2, 1, 1)),
        Rect::new(70, 20, 20, 10),
    );
    let alloc2 = node2.layout(bounds);
    let (_, o2) = alloc2[1];
    assert_eq!(o2, Rect::new(70, 20, 10, 4));
}

#[test]
fn nested_splits_deterministic() {
    let bounds = Rect::new(0, 0, 100, 100);
    let left_top = LayoutNode::leaf(view(1, 1, 1));
    let left_bot = LayoutNode::leaf(view(2, 1, 1));
    let left = LayoutNode::split(SplitAxis::Vertical, single(0.5), left_top, left_bot);
    let right = LayoutNode::leaf(view(3, 1, 1));
    let root = LayoutNode::split(SplitAxis::Horizontal, single(0.4), left, right);
    let alloc = root.layout(bounds);
    assert_eq!(alloc.len(), 3);
    assert_eq!(alloc[0].1.width, 40);
    assert_eq!(alloc[0].1.height, 50);
    assert_eq!(alloc[1].1.width, 40);
    assert_eq!(alloc[2].1.width, 60);
    let alloc2 = root.layout(bounds);
    assert_eq!(alloc, alloc2);
}

#[test]
fn reflow_updates_view_sizes() {
    let mut root = LayoutNode::split(
        SplitAxis::Horizontal,
        single(0.5),
        LayoutNode::leaf(view(1, 80, 24)),
        LayoutNode::leaf(view(2, 80, 24)),
    );
    let bounds = Rect::new(0, 0, 100, 50);
    root.reflow(bounds);
    let v1 = root.find_leaf(ViewId::new(1)).unwrap();
    let v2 = root.find_leaf(ViewId::new(2)).unwrap();
    assert_eq!(v1.cols(), 50);
    assert_eq!(v2.cols(), 50);
    assert_eq!(v1.origin().x, 0);
    assert_eq!(v2.origin().x, 50);
}

#[test]
fn set_split_ratio_at_path() {
    let mut root = LayoutNode::split(
        SplitAxis::Horizontal,
        single(0.5),
        LayoutNode::split(
            SplitAxis::Vertical,
            single(0.5),
            LayoutNode::leaf(view(1, 1, 1)),
            LayoutNode::leaf(view(2, 1, 1)),
        ),
        LayoutNode::leaf(view(3, 1, 1)),
    );
    assert!(root.set_split_ratio_at(&[0], single(0.7)));
    if let LayoutNode::Split { first, .. } = &root {
        if let LayoutNode::Split { ratio, .. } = first.as_ref() {
            assert!((f32::from_bits(ratio.to_bits()) - 0.7).abs() < f32::EPSILON);
        } else {
            panic!("inner not split");
        }
    }
    assert!(!root.set_split_ratio_at(&[5], single(0.5)));
    assert!(!root.set_split_ratio_at(&[], single(0.5)) || matches!(root, LayoutNode::Split { .. }));
}

#[test]
fn leaf_count_and_ids_order() {
    let node = LayoutNode::stack(vec![
        LayoutNode::leaf(view(2, 1, 1)),
        LayoutNode::leaf(view(1, 1, 1)),
    ]);
    assert_eq!(node.leaf_count(), 2);
    assert_eq!(node.leaf_ids(), vec![ViewId::new(2), ViewId::new(1)]);
}

#[test]
fn split_rect_small_total() {
    let bounds = Rect::new(0, 0, 1, 10);
    let (a, b) = split_rect(bounds, SplitAxis::Horizontal, single(0.5));
    assert_eq!(a.width, 1);
    assert_eq!(b.width, 0);
}

#[test]
fn split_rect_empty_bounds() {
    let (a, b) = split_rect(Rect::zero(), SplitAxis::Horizontal, single(0.5));
    assert!(a.is_empty());
    assert!(b.is_empty());
}

#[test]
fn zero_gaps_match_gapless_solver() {
    let bounds = Rect::new(0, 0, 80, 24);
    let node = LayoutNode::split(
        SplitAxis::Horizontal,
        single(0.5),
        LayoutNode::split(
            SplitAxis::Vertical,
            single(0.3),
            LayoutNode::leaf(view(1, 1, 1)),
            LayoutNode::leaf(view(2, 1, 1)),
        ),
        LayoutNode::leaf(view(3, 1, 1)),
    );
    assert_eq!(
        node.layout(bounds),
        node.layout_with_gaps(bounds, Gaps::zero())
    );
    let (a, b) = split_rect(bounds, SplitAxis::Horizontal, single(0.5));
    let (ga, gb) = split_rect_with_gap(bounds, SplitAxis::Horizontal, single(0.5), 0);
    assert_eq!((a, b), (ga, gb));
    let (c, d) = split_rect(bounds, SplitAxis::Vertical, single(0.3));
    let (gc, gd) = split_rect_with_gap(bounds, SplitAxis::Vertical, single(0.3), 0);
    assert_eq!((c, d), (gc, gd));
}

#[test]
fn gaps_out_insets_all_leaves() {
    let bounds = Rect::new(0, 0, 80, 24);
    let node = LayoutNode::leaf(view(1, 1, 1));
    let alloc = node.layout_with_gaps(bounds, Gaps::new(0, 2));
    assert_eq!(alloc.len(), 1);
    assert_eq!(alloc[0].1, Rect::new(2, 2, 76, 20));
}

#[test]
fn gaps_in_reserves_background_band_between_siblings() {
    let bounds = Rect::new(0, 0, 80, 24);
    let node = LayoutNode::split(
        SplitAxis::Horizontal,
        single(0.5),
        LayoutNode::leaf(view(1, 1, 1)),
        LayoutNode::leaf(view(2, 1, 1)),
    );
    let alloc = node.layout_with_gaps(bounds, Gaps::new(2, 0));
    assert_eq!(alloc.len(), 2);
    let (_, a) = alloc[0];
    let (_, b) = alloc[1];
    assert_eq!(a, Rect::new(0, 0, 39, 24));
    assert_eq!(b, Rect::new(41, 0, 39, 24));
    assert_eq!(b.x, a.x + a.width + 2);
    assert_eq!(a.width + 2 + b.width, 80);
}

#[test]
fn gaps_in_vertical_split() {
    let bounds = Rect::new(0, 0, 10, 10);
    let node = LayoutNode::split(
        SplitAxis::Vertical,
        single(0.5),
        LayoutNode::leaf(view(1, 1, 1)),
        LayoutNode::leaf(view(2, 1, 1)),
    );
    let alloc = node.layout_with_gaps(bounds, Gaps::new(2, 0));
    let (_, a) = alloc[0];
    let (_, b) = alloc[1];
    assert_eq!(a, Rect::new(0, 0, 10, 4));
    assert_eq!(b, Rect::new(0, 6, 10, 4));
    assert_eq!(b.y, a.y + a.height + 2);
}

#[test]
fn gaps_compose_outer_then_inner() {
    let bounds = Rect::new(0, 0, 80, 24);
    let node = LayoutNode::split(
        SplitAxis::Horizontal,
        single(0.5),
        LayoutNode::leaf(view(1, 1, 1)),
        LayoutNode::leaf(view(2, 1, 1)),
    );
    let alloc = node.layout_with_gaps(bounds, Gaps::new(2, 1));
    let (_, a) = alloc[0];
    let (_, b) = alloc[1];
    assert_eq!(a, Rect::new(1, 1, 38, 22));
    assert_eq!(b, Rect::new(41, 1, 38, 22));
}

#[test]
fn gaps_nested_splits_each_insert_band() {
    let bounds = Rect::new(0, 0, 81, 24);
    let node = LayoutNode::split(
        SplitAxis::Horizontal,
        single(0.5),
        LayoutNode::split(
            SplitAxis::Horizontal,
            single(0.5),
            LayoutNode::leaf(view(1, 1, 1)),
            LayoutNode::leaf(view(2, 1, 1)),
        ),
        LayoutNode::leaf(view(3, 1, 1)),
    );
    let alloc = node.layout_with_gaps(bounds, Gaps::new(1, 0));
    assert_eq!(alloc.len(), 3);
    assert_eq!(alloc[0].1, Rect::new(0, 0, 19, 24));
    assert_eq!(alloc[1].1, Rect::new(20, 0, 20, 24));
    assert_eq!(alloc[2].1, Rect::new(41, 0, 40, 24));
    assert_eq!(alloc, node.layout_with_gaps(bounds, Gaps::new(1, 0)));
}

#[test]
fn gaps_oversized_collapse_total() {
    let bounds = Rect::new(0, 0, 80, 24);
    let node = LayoutNode::split(
        SplitAxis::Horizontal,
        single(0.5),
        LayoutNode::leaf(view(1, 1, 1)),
        LayoutNode::leaf(view(2, 1, 1)),
    );
    let alloc = node.layout_with_gaps(bounds, Gaps::new(200, 0));
    assert_eq!(alloc.len(), 2);
    for (_, r) in &alloc {
        assert!(r.x as u32 + r.width as u32 <= 80);
    }
    let solo = LayoutNode::leaf(view(1, 1, 1));
    let alloc = solo.layout_with_gaps(bounds, Gaps::new(0, 100));
    assert!(alloc[0].1.is_empty());
}

#[test]
fn gaps_reflow_updates_origins_past_gap_bands() {
    let mut root = LayoutNode::split(
        SplitAxis::Horizontal,
        single(0.5),
        LayoutNode::leaf(view(1, 80, 24)),
        LayoutNode::leaf(view(2, 80, 24)),
    );
    root.reflow_with_gaps(Rect::new(0, 0, 80, 24), Gaps::new(2, 1));
    let v1 = root.find_leaf(ViewId::new(1)).unwrap();
    let v2 = root.find_leaf(ViewId::new(2)).unwrap();
    assert_eq!(v1.origin().x, 1);
    assert_eq!(v1.cols(), 38);
    assert_eq!(v2.origin().x, 41);
    assert_eq!(v2.cols(), 38);
    let mut plain = LayoutNode::split(
        SplitAxis::Horizontal,
        single(0.5),
        LayoutNode::leaf(view(1, 80, 24)),
        LayoutNode::leaf(view(2, 80, 24)),
    );
    plain.reflow(Rect::new(0, 0, 80, 24));
    assert_eq!(plain.find_leaf(ViewId::new(2)).unwrap().origin().x, 40);
}

#[test]
fn smart_split_axis_wide_is_side_by_side() {
    assert_eq!(
        smart_split_axis(Rect::new(0, 0, 80, 24), single(1.0)),
        SplitAxis::Horizontal
    );
    let node = LayoutNode::smart_split(
        Rect::new(0, 0, 80, 24),
        single(0.5),
        LayoutNode::leaf(view(1, 1, 1)),
        LayoutNode::leaf(view(2, 1, 1)),
    );
    let alloc = node.layout(Rect::new(0, 0, 80, 24));
    assert_eq!(alloc.len(), 2);
    let (_, a) = alloc[0];
    let (_, b) = alloc[1];
    assert_eq!(a.width + b.width, 80);
    assert_eq!(a.height, 24);
    assert_eq!(b.height, 24);
}

#[test]
fn smart_split_axis_tall_is_stacked() {
    assert_eq!(
        smart_split_axis(Rect::new(0, 0, 24, 80), single(1.0)),
        SplitAxis::Vertical
    );
    let node = LayoutNode::smart_split(
        Rect::new(0, 0, 24, 80),
        single(0.5),
        LayoutNode::leaf(view(1, 1, 1)),
        LayoutNode::leaf(view(2, 1, 1)),
    );
    let alloc = node.layout(Rect::new(0, 0, 24, 80));
    assert_eq!(alloc.len(), 2);
    let (_, a) = alloc[0];
    let (_, b) = alloc[1];
    assert_eq!(a.height + b.height, 80);
    assert_eq!(a.width, 24);
    assert_eq!(b.width, 24);
}

#[test]
fn smart_split_axis_of_empty_bounds_is_side_by_side() {
    for empty in [Rect::new(3, 4, 0, 80), Rect::new(3, 4, 80, 0), Rect::new(3, 4, 0, 0)] {
        assert_eq!(smart_split_axis(empty, single(1.0)), SplitAxis::Horizontal);
        assert_eq!(smart_split_axis(empty, single(40.0)), SplitAxis::Horizontal);
    }
    assert_eq!(smart_split_axis(Rect::new(3, 4, 1, 2), single(1.0)), SplitAxis::Vertical);
}

#[test]
fn smart_split_axis_square_tie_breaks_side_by_side() {
    assert_eq!(
        smart_split_axis(Rect::new(0, 0, 40, 40), single(1.0)),
        SplitAxis::Horizontal
    );
}

#[test]
fn smart_split_multiplier_shifts_threshold() {
    let bounds = Rect::new(0, 0, 60, 40);
    assert_eq!(smart_split_axis(bounds, single(2.0)), SplitAxis::Vertical);
    assert_eq!(smart_split_axis(bounds, single(1.0)), SplitAxis::Horizontal);
    assert_eq!(smart_split_axis(bounds, single(0.0)), SplitAxis::Horizontal);
    assert_eq!(smart_split_axis(bounds, single(f32::NAN)), SplitAxis::Horizontal);
    assert_eq!(smart_split_axis(Rect::zero(), single(1.0)), SplitAxis::Horizontal);
}

#[test]
fn smart_split_matches_explicit_split_layout() {
    let wide = Rect::new(0, 0, 80, 24);
    let smart = LayoutNode::smart_split(
        wide,
        single(0.5),
        LayoutNode::leaf(view(1, 1, 1)),
        LayoutNode::leaf(view(2, 1, 1)),
    );
    let explicit = LayoutNode::split(
        SplitAxis::Horizontal,
        single(0.5),
        LayoutNode::leaf(view(1, 1, 1)),
        LayoutNode::leaf(view(2, 1, 1)),
    );
    assert_eq!(smart, explicit);
    assert_eq!(smart.layout(wide), explicit.layout(wide));

    let tall = Rect::new(0, 0, 24, 80);
    let smart = LayoutNode::smart_split(
        tall,
        single(0.5),
        LayoutNode::leaf(view(1, 1, 1)),
        LayoutNode::leaf(view(2, 1, 1)),
    );
    let explicit = LayoutNode::split(
        SplitAxis::Vertical,
        single(0.5),
        LayoutNode::leaf(view(1, 1, 1)),
        LayoutNode::leaf(view(2, 1, 1)),
    );
    assert_eq!(smart, explicit);
    assert_eq!(smart.layout(tall), explicit.layout(tall));
    let clamped = LayoutNode::smart_split(
        wide,
        single(5.0),
        LayoutNode::leaf(view(1, 1, 1)),
        LayoutNode::leaf(view(2, 1, 1)),
    );
    if let LayoutNode::Split { axis, ratio, .. } = clamped {
        assert_eq!(axis, SplitAxis::Horizontal);
        assert_eq!(ratio, single(0.90));
    } else {
        panic!("expected split");
    }
}

#[test]
fn overlay_tier_ordering_and_defaults() {
    assert!(OverlayTier::Editor < OverlayTier::Float);
    assert!(OverlayTier::Float < OverlayTier::Popup);
    assert!(OverlayTier::Popup < OverlayTier::Messages);
    assert_eq!(OverlayTier::Editor as u8, 0);
    assert_eq!(OverlayTier::Float as u8, 1);
    assert_eq!(OverlayTier::Popup as u8, 2);
    assert_eq!(OverlayTier::Messages as u8, 3);
    assert_eq!(OverlayTier::default(), OverlayTier::Float);
    assert_eq!(OverlayTier::BOTTOM, OverlayTier::Editor);
    assert_eq!(OverlayTier::TOP, OverlayTier::Messages);

    let node = LayoutNode::overlay(
        LayoutNode::leaf(view(1, 1, 1)),
        LayoutNode::leaf(view(2, 1, 1)),
        Rect::new(0, 0, 5, 5),
    );
    assert_eq!(node.overlay_tier(), Some(OverlayTier::Float));
    let tiered = LayoutNode::overlay_tiered(
        LayoutNode::leaf(view(1, 1, 1)),
        LayoutNode::leaf(view(2, 1, 1)),
        Rect::new(0, 0, 5, 5),
        OverlayTier::Messages,
    );
    assert_eq!(tiered.overlay_tier(), Some(OverlayTier::Messages));
    assert_eq!(LayoutNode::leaf(view(1, 1, 1)).overlay_tier(), None);
}

#[test]
fn single_overlay_layout_byte_identical() {
    let bounds = Rect::new(0, 0, 80, 24);
    let over_bounds = Rect::new(10, 5, 20, 10);
    let legacy = LayoutNode::overlay(
        LayoutNode::leaf(view(1, 1, 1)),
        LayoutNode::leaf(view(2, 1, 1)),
        over_bounds,
    );
    let tiered = LayoutNode::overlay_tiered(
        LayoutNode::leaf(view(1, 1, 1)),
        LayoutNode::leaf(view(2, 1, 1)),
        over_bounds,
        OverlayTier::Float,
    );
    assert_eq!(legacy, tiered);
    let a = legacy.layout(bounds);
    let b = tiered.layout(bounds);
    assert_eq!(a, b);
    assert_eq!(
        a,
        vec![(ViewId::new(1), bounds), (ViewId::new(2), over_bounds),]
    );
    assert_eq!(
        legacy.layout_with_gaps(bounds, Gaps::zero()),
        tiered.layout_with_gaps(bounds, Gaps::zero())
    );
}

#[test]
fn overlay_stack_single_layer_matches_overlay() {
    let base = LayoutNode::leaf(view(1, 1, 1));
    let over_bounds = Rect::new(70, 20, 20, 10);
    let stacked = LayoutNode::overlay_stack(
        base,
        vec![OverlayLayer::new(
            OverlayTier::Popup,
            LayoutNode::leaf(view(2, 1, 1)),
            over_bounds,
        )],
    );
    let direct = LayoutNode::overlay_tiered(
        LayoutNode::leaf(view(1, 1, 1)),
        LayoutNode::leaf(view(2, 1, 1)),
        over_bounds,
        OverlayTier::Popup,
    );
    assert_eq!(stacked, direct);
    let bare = LayoutNode::leaf(view(1, 1, 1));
    assert_eq!(LayoutNode::overlay_stack(bare.clone(), vec![]), bare);
}

#[test]
fn overlay_stack_orders_by_tier_regardless_of_input() {
    let bounds = Rect::new(0, 0, 80, 24);
    let layer = |tier, id: u64| {
        OverlayLayer::new(
            tier,
            LayoutNode::leaf(view(id, 1, 1)),
            Rect::new(0, 0, 10, 5),
        )
    };
    let scrambled = vec![
        layer(OverlayTier::Messages, 40),
        layer(OverlayTier::Editor, 10),
        layer(OverlayTier::Popup, 30),
        layer(OverlayTier::Float, 20),
    ];
    let node = LayoutNode::overlay_stack(LayoutNode::leaf(view(1, 1, 1)), scrambled);
    let alloc = node.layout(bounds);
    let ids: Vec<ViewId> = alloc.iter().map(|(id, _)| *id).collect();
    assert_eq!(
        ids,
        vec![
            ViewId::new(1),
            ViewId::new(10),
            ViewId::new(20),
            ViewId::new(30),
            ViewId::new(40),
        ]
    );
    assert_eq!(alloc, node.layout(bounds));
    assert_eq!(node.overlay_tier(), Some(OverlayTier::Messages));
}

#[test]
fn overlay_stack_same_tier_is_stable_later_on_top() {
    let bounds = Rect::new(0, 0, 80, 24);
    let layer = |id: u64| {
        OverlayLayer::new(
            OverlayTier::Float,
            LayoutNode::leaf(view(id, 1, 1)),
            Rect::new(0, 0, 10, 5),
        )
    };
    let fwd =
        LayoutNode::overlay_stack(LayoutNode::leaf(view(1, 1, 1)), vec![layer(2), layer(3)]);
    let ids: Vec<ViewId> = fwd.layout(bounds).iter().map(|(id, _)| *id).collect();
    assert_eq!(ids, vec![ViewId::new(1), ViewId::new(2), ViewId::new(3)]);

    let rev =
        LayoutNode::overlay_stack(LayoutNode::leaf(view(1, 1, 1)), vec![layer(3), layer(2)]);
    let rev_ids: Vec<ViewId> = rev.layout(bounds).iter().map(|(id, _)| *id).collect();
    assert_eq!(
        rev_ids,
        vec![ViewId::new(1), ViewId::new(3), ViewId::new(2)]
    );
}
