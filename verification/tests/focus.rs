use bitty_ui::float32::Float32;
use bitty_ui::focus::{Focus, FocusDirection};
use bitty_ui::geometry::{Rect, SplitAxis};
use bitty_ui::layout::LayoutNode;
use bitty_ui::view::{LeafView, ViewId};

fn single(value: f32) -> Float32 {
    Float32::from_bits(value.to_bits())
}

fn v(id: u64) -> LeafView {
    LeafView::new(ViewId::new(id), 10, 10)
}

fn two_pane_horizontal() -> LayoutNode {
    LayoutNode::split(
        SplitAxis::Horizontal,
        single(0.5),
        LayoutNode::leaf(v(1)),
        LayoutNode::leaf(v(2)),
    )
}

fn three_pane() -> LayoutNode {
    LayoutNode::split(
        SplitAxis::Horizontal,
        single(0.5),
        LayoutNode::split(
            SplitAxis::Vertical,
            single(0.5),
            LayoutNode::leaf(v(1)),
            LayoutNode::leaf(v(2)),
        ),
        LayoutNode::leaf(v(3)),
    )
}

#[test]
fn focus_next_prev_wrap() {
    let node = two_pane_horizontal();
    let f = Focus::with_focus(ViewId::new(1));
    assert_eq!(f.next(&node), Some(ViewId::new(2)));
    assert_eq!(f.prev(&node), Some(ViewId::new(2)));
    let f2 = Focus::with_focus(ViewId::new(2));
    assert_eq!(f2.next(&node), Some(ViewId::new(1)));
}

#[test]
fn focus_unset_next_goes_to_first() {
    let node = two_pane_horizontal();
    let f = Focus::new();
    assert_eq!(f.next(&node), Some(ViewId::new(1)));
    assert_eq!(f.prev(&node), Some(ViewId::new(2)));
}

#[test]
fn focus_focus_first() {
    let node = two_pane_horizontal();
    let mut f = Focus::new();
    assert_eq!(f.focus_first(&node), Some(ViewId::new(1)));
    assert_eq!(f.focused(), Some(ViewId::new(1)));
}

#[test]
fn focus_spatial_left_right() {
    let node = two_pane_horizontal();
    let bounds = Rect::new(0, 0, 80, 24);
    let f = Focus::with_focus(ViewId::new(1));
    assert_eq!(
        f.advance(&node, bounds, FocusDirection::Right),
        Some(ViewId::new(2))
    );
    assert_eq!(
        f.advance(&node, bounds, FocusDirection::Left),
        Some(ViewId::new(1))
    );
    let f2 = Focus::with_focus(ViewId::new(2));
    assert_eq!(
        f2.advance(&node, bounds, FocusDirection::Left),
        Some(ViewId::new(1))
    );
    assert_eq!(
        f2.advance(&node, bounds, FocusDirection::Right),
        Some(ViewId::new(2))
    );
}

#[test]
fn focus_spatial_up_down() {
    let node = three_pane();
    let bounds = Rect::new(0, 0, 80, 40);
    let f1 = Focus::with_focus(ViewId::new(1));
    assert_eq!(
        f1.advance(&node, bounds, FocusDirection::Down),
        Some(ViewId::new(2))
    );
    let f2 = Focus::with_focus(ViewId::new(2));
    assert_eq!(
        f2.advance(&node, bounds, FocusDirection::Up),
        Some(ViewId::new(1))
    );
    assert_eq!(
        f1.advance(&node, bounds, FocusDirection::Right),
        Some(ViewId::new(3))
    );
}

#[test]
fn focus_empty_tree() {
    let node = LayoutNode::stack(vec![]);
    let f = Focus::with_focus(ViewId::new(1));
    assert_eq!(f.next(&node), None);
    assert_eq!(
        f.advance(&node, Rect::new(0, 0, 80, 24), FocusDirection::Right),
        None
    );
}

#[test]
fn focus_deterministic_tie_break() {
    let a = LayoutNode::leaf(v(10));
    let b = LayoutNode::leaf(v(20));
    let c = LayoutNode::leaf(v(30));
    let _ = (a, b, c);
    assert!(ViewId::new(10) < ViewId::new(20));
}

#[test]
fn move_focus_mutates() {
    let node = two_pane_horizontal();
    let mut f = Focus::with_focus(ViewId::new(1));
    let next = f.move_focus(&node, Rect::new(0, 0, 80, 24), FocusDirection::Next);
    assert_eq!(next, Some(ViewId::new(2)));
    assert_eq!(f.focused(), Some(ViewId::new(2)));
}
