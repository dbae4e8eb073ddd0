use bitty_ui::geometry::Rect;

#[test]
fn rect_contains_and_intersection() {
    let outer = Rect::new(0, 0, 10, 10);
    let inner = Rect::new(2, 2, 3, 3);
    assert!(outer.contains(inner));
    assert_eq!(outer.intersection(inner), Some(Rect::new(2, 2, 3, 3)));
    let disjoint = Rect::new(20, 20, 2, 2);
    assert_eq!(outer.intersection(disjoint), None);
    let touching = Rect::new(10, 0, 2, 2);
    assert_eq!(outer.intersection(touching), None);
}

#[test]
fn empty_handling() {
    let r = Rect::new(0, 0, 0, 5);
    assert!(r.is_empty());
    assert_eq!(r.intersection(Rect::new(0, 0, 5, 5)), None);
    assert!(Rect::new(0, 0, 5, 5).contains(Rect::new(1, 1, 0, 0)));
}

#[test]
fn clip_to() {
    let bounds = Rect::new(0, 0, 10, 10);
    let r = Rect::new(8, 8, 5, 5);
    assert_eq!(r.clip_to(bounds), Some(Rect::new(8, 8, 2, 2)));
    assert_eq!(Rect::new(20, 20, 2, 2).clip_to(bounds), None);
}
