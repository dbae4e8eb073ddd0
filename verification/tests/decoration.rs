use bitty_ui::decoration::{Decoration, DecorationError};
use bitty_ui::float32::Float32;
use bitty_ui::float64::Float64;
use bitty_ui::geometry::{Gaps, Rect, SplitAxis};
use bitty_ui::layout::LayoutNode;
use bitty_ui::view::{LeafView, ViewId};

fn single(value: f32) -> Float32 {
    Float32::from_bits(value.to_bits())
}

fn double(value: f64) -> Float64 {
    Float64::from_bits(value.to_bits())
}

fn view(id: u64, cols: usize, rows: usize) -> LeafView {
    LeafView::new(ViewId::new(id), cols, rows)
}

fn split(ratio: f32, first: LayoutNode, second: LayoutNode) -> LayoutNode {
    LayoutNode::split(SplitAxis::Horizontal, single(ratio), first, second)
}

#[test]
fn defaults_match_accepted_spec() {
    let d = Decoration::default();
    assert_eq!(d.gaps_in, 4);
    assert_eq!(d.gaps_out, 6);
    assert_eq!(d.border, 2);
    assert_eq!(d.radius, 6);
}

#[test]
fn safe_mode_is_zero_zero_one_zero() {
    assert_eq!(Decoration::safe().gaps_in, 0);
    assert_eq!(Decoration::safe().gaps_out, 0);
    assert_eq!(Decoration::safe().border, 1);
    assert_eq!(Decoration::safe().radius, 0);
    assert!(Decoration::safe().validate().is_ok());
}

#[test]
fn validate_bounds_fail_closed() {
    assert!(Decoration::new(32, 32, 8, 16).validate().is_ok());
    assert_eq!(
        Decoration::new(33, 0, 0, 0).validate(),
        Err(DecorationError::GapsIn(33))
    );
    assert_eq!(
        Decoration::new(0, 33, 0, 0).validate(),
        Err(DecorationError::GapsOut(33))
    );
    assert_eq!(
        Decoration::new(0, 0, 9, 0).validate(),
        Err(DecorationError::Border(9))
    );
    assert_eq!(
        Decoration::new(0, 0, 0, 17).validate(),
        Err(DecorationError::Radius(17))
    );
}

#[test]
fn zero_decoration_matches_plain_layout() {
    let node = split(
        0.6,
        split(
            0.5,
            LayoutNode::leaf(view(1, 4, 2)),
            LayoutNode::leaf(view(2, 4, 2)),
        ),
        LayoutNode::leaf(view(3, 4, 2)),
    );
    let bounds = Rect::new(0, 0, 80, 24);
    let plain = node.layout(bounds);
    let decorated = node.layout_with_decoration(bounds, Decoration::zero());
    assert_eq!(plain.len(), decorated.len());
    for ((pid, prect), (did, dview)) in plain.iter().zip(decorated.iter()) {
        assert_eq!(pid, did);
        assert_eq!(*prect, dview.frame);
        assert_eq!(dview.frame, dview.content);
    }
}

#[test]
fn gaps_out_insets_workspace_area_px() {
    let node = LayoutNode::leaf(view(1, 4, 2));
    let bounds = Rect::new(0, 0, 100, 50);
    let out = node.layout_with_decoration(bounds, Decoration::new(0, 6, 0, 0));
    assert_eq!(out.len(), 1);
    assert_eq!(out[0].1.frame, Rect::new(6, 6, 88, 38));
}

#[test]
fn gaps_in_reserves_px_band_between_siblings() {
    let node = split(
        0.5,
        LayoutNode::leaf(view(1, 4, 2)),
        LayoutNode::leaf(view(2, 4, 2)),
    );
    let bounds = Rect::new(0, 0, 100, 20);
    let out = node.layout_with_decoration(bounds, Decoration::new(10, 0, 0, 0));
    assert_eq!(out[0].1.frame, Rect::new(0, 0, 45, 20));
    assert_eq!(out[1].1.frame, Rect::new(55, 0, 45, 20));
    let (a, b) = (out[0].1.frame, out[1].1.frame);
    assert_eq!(a.right() + 10 + u32::from(b.width), bounds.right());
}

#[test]
fn border_insets_content_inside_frame() {
    let node = LayoutNode::leaf(view(1, 4, 2));
    let bounds = Rect::new(0, 0, 40, 20);
    let out = node.layout_with_decoration(bounds, Decoration::new(0, 0, 2, 6));
    assert_eq!(out[0].1.frame, bounds);
    assert_eq!(out[0].1.content, Rect::new(2, 2, 36, 16));
    assert_eq!(out[0].1.border, 2);
    assert_eq!(out[0].1.radius, 6);
}

#[test]
fn stacked_children_share_the_gapped_bounds() {
    let node = LayoutNode::stack(vec![
        LayoutNode::leaf(view(1, 4, 2)),
        LayoutNode::leaf(view(2, 4, 2)),
    ]);
    let bounds = Rect::new(0, 0, 30, 12);
    let out = node.layout_with_decoration(bounds, Decoration::new(4, 2, 0, 0));
    assert_eq!(out[0].1.frame, out[1].1.frame);
    assert_eq!(out[0].1.frame, Rect::new(2, 2, 26, 8));
}

#[test]
fn oversized_decoration_saturates_without_panic() {
    let node = split(
        0.5,
        LayoutNode::leaf(view(1, 1, 1)),
        LayoutNode::leaf(view(2, 1, 1)),
    );
    let out =
        node.layout_with_decoration(Rect::new(0, 0, 3, 3), Decoration::new(32, 32, 8, 16));
    assert_eq!(out.len(), 2);
    for (_, dview) in &out {
        assert!(dview.frame.width == 0 || dview.frame.width <= 3);
        assert!(dview.content.width <= dview.frame.width);
    }
}

#[test]
fn decoration_is_deterministic() {
    let node = split(
        0.37,
        LayoutNode::leaf(view(1, 4, 2)),
        LayoutNode::stack(vec![
            LayoutNode::leaf(view(2, 4, 2)),
            LayoutNode::leaf(view(3, 4, 2)),
        ]),
    );
    let bounds = Rect::new(1, 2, 101, 51);
    let d = Decoration::new(3, 5, 2, 6);
    assert_eq!(
        node.layout_with_decoration(bounds, d),
        node.layout_with_decoration(bounds, d)
    );
}

#[test]
fn decoration_never_mutates_the_tree() {
    let node = split(
        0.5,
        LayoutNode::leaf(view(1, 4, 2)),
        LayoutNode::leaf(view(2, 4, 2)),
    );
    let before = node.clone();
    let _ = node.layout_with_decoration(Rect::new(0, 0, 80, 24), Decoration::new(3, 5, 2, 6));
    assert_eq!(node, before, "decoration application must not mutate");
}

#[test]
fn errors_display_field_paths() {
    assert!(DecorationError::GapsIn(40).text().contains("gaps_in"));
    assert!(
        DecorationError::GapsOut(40)
            .text()
            .contains("gaps_out")
    );
    assert!(DecorationError::Border(9).text().contains("border"));
    assert!(DecorationError::Radius(17).text().contains("radius"));
}

#[test]
fn scaled_zero_decoration_matches_cell_gap_solver() {
    let node = split(
        0.5,
        LayoutNode::leaf(view(1, 4, 2)),
        LayoutNode::leaf(view(2, 4, 2)),
    );
    let cell = (9u16, 19u16);
    let gaps = Gaps::new(2, 1);
    let cell_bounds = Rect::new(0, 0, 80, 24);
    let px_bounds = Rect::new(0, 0, 80 * 9, 24 * 19);
    let px = node.layout_with_decoration_scaled(px_bounds, Decoration::zero(), double(1.75), cell, gaps);
    let plain = node.layout_with_gaps(cell_bounds, gaps);
    assert_eq!(px.len(), plain.len());
    for ((pid, prect), (did, dview)) in plain.iter().zip(px.iter()) {
        assert_eq!(pid, did);
        assert_eq!(
            dview.frame,
            Rect::new(
                prect.x * 9,
                prect.y * 19,
                prect.width * 9,
                prect.height * 19
            )
        );
        assert_eq!(dview.content, dview.frame);
    }
}

#[test]
fn scaled_zero_scale_matches_logical_decoration() {
    let node = split(
        0.37,
        LayoutNode::leaf(view(1, 4, 2)),
        LayoutNode::leaf(view(2, 4, 2)),
    );
    let bounds = Rect::new(1, 2, 101, 51);
    let d = Decoration::new(3, 5, 2, 6);
    assert_eq!(
        node.layout_with_decoration(bounds, d),
        node.layout_with_decoration_scaled(bounds, d, double(1.0), (9, 19), Gaps::zero())
    );
}

#[test]
fn scaled_decoration_scales_insets_hidpi() {
    let node = LayoutNode::leaf(view(1, 4, 2));
    let bounds = Rect::new(0, 0, 200, 100);
    let out = node.layout_with_decoration_scaled(
        bounds,
        Decoration::new(0, 6, 2, 6),
        double(2.0),
        (9, 19),
        Gaps::new(0, 0),
    );
    assert_eq!(out[0].1.frame, Rect::new(12, 12, 176, 76));
    assert_eq!(out[0].1.content, Rect::new(16, 16, 168, 68));
    assert_eq!(out[0].1.border, 4);
    assert_eq!(out[0].1.radius, 12);
}

#[test]
fn scaled_composes_cell_gaps_with_px_decoration() {
    let node = split(
        0.5,
        LayoutNode::leaf(view(1, 4, 2)),
        LayoutNode::leaf(view(2, 4, 2)),
    );
    let bounds = Rect::new(0, 0, 720, 456);
    let out = node.layout_with_decoration_scaled(
        bounds,
        Decoration::new(4, 6, 2, 6),
        double(1.0),
        (9, 19),
        Gaps::new(2, 1),
    );
    let (a, b) = (out[0].1.frame, out[1].1.frame);
    assert_eq!(a.x, 15);
    assert_eq!(a.y, 25);
    assert_eq!(u32::from(b.x) - a.right(), 22);
    assert_eq!(u32::from(a.width) + 22 + u32::from(b.width), 720 - 30);
    assert_eq!(out[0].1.border, 2);
    assert_eq!(out[0].1.radius, 6);
}

#[test]
fn scaled_hostile_scale_is_total() {
    let node = LayoutNode::leaf(view(1, 4, 2));
    let bounds = Rect::new(0, 0, 40, 20);
    for scale in [f64::NAN, f64::INFINITY, -1.0, 0.0, 1e9] {
        let out = node.layout_with_decoration_scaled(
            bounds,
            Decoration::new(32, 32, 8, 16),
            double(scale),
            (9, 19),
            Gaps::new(16, 16),
        );
        assert_eq!(out.len(), 1);
        let view = out[0].1;
        assert!(view.content.width <= view.frame.width);
        assert!(view.content.height <= view.frame.height);
    }
}
