use bitty_ui::beacon_layer::{AnnotationLayerError, BeaconAnnotationLayer, MAX_BEACON_ANNOTATIONS};
use bitty_ui::beacon_target::{LinkId, TargetRef, TargetRegistry};
use bitty_ui::geometry::{Point, Rect};

fn session(count: usize) -> (Vec<TargetRef>, Vec<String>, Vec<Point>) {
    let mut registry = TargetRegistry::new();
    let mut targets = Vec::with_capacity(count);
    for raw in 0..(count as u64) {
        let link = registry.insert_link(LinkId::new(raw)).expect("link");
        targets.push(TargetRef::Link(link));
    }
    let labels = (0..count).map(|i| format!("l{i}")).collect();
    let anchors = (0..count)
        .map(|i| Point::new((i % 80) as u16, (i / 80) as u16))
        .collect();
    (targets, labels, anchors)
}

#[test]
fn one_layer_batches_many_targets() {
    let (targets, labels, anchors) = session(64);
    let layer =
        BeaconAnnotationLayer::build(&targets, &labels, &anchors, Rect::new(0, 0, 80, 24))
            .expect("layer");
    assert_eq!(layer.len(), 64);
    assert!(!layer.is_empty());
    assert_eq!(layer.viewport(), Rect::new(0, 0, 80, 24));
    assert_eq!(layer.annotations().len(), 64);
    assert_eq!(
        layer.annotation_for_label("l7").expect("label").anchor,
        Point::new(7, 0)
    );
    assert!(layer.annotation_for_label("missing").is_none());
}

#[test]
fn input_order_preserved() {
    let (targets, labels, anchors) = session(8);
    let layer =
        BeaconAnnotationLayer::build(&targets, &labels, &anchors, Rect::zero()).expect("layer");
    for (index, annotation) in layer.annotations().iter().enumerate() {
        assert_eq!(annotation.target, targets[index]);
        assert_eq!(annotation.label, labels[index]);
        assert_eq!(annotation.anchor, anchors[index]);
    }
}

#[test]
fn length_mismatch_fails_closed() {
    let (targets, labels, anchors) = session(3);
    let err = BeaconAnnotationLayer::build(&targets[..2], &labels, &anchors, Rect::zero())
        .expect_err("mismatch must fail");
    assert!(matches!(err, AnnotationLayerError::LengthMismatch { .. }));
}

#[test]
fn cap_enforced() {
    let (targets, labels, anchors) = session(8);
    let many_targets = vec![targets[0]; MAX_BEACON_ANNOTATIONS + 1];
    let many_labels = vec![labels[0].clone(); MAX_BEACON_ANNOTATIONS + 1];
    let many_anchors = vec![anchors[0]; MAX_BEACON_ANNOTATIONS + 1];
    let err =
        BeaconAnnotationLayer::build(&many_targets, &many_labels, &many_anchors, Rect::zero())
            .expect_err("cap must hold");
    assert!(matches!(
        err,
        AnnotationLayerError::TooManyAnnotations { .. }
    ));
}

#[test]
fn clear_ends_session() {
    let (targets, labels, anchors) = session(4);
    let mut layer =
        BeaconAnnotationLayer::build(&targets, &labels, &anchors, Rect::zero()).expect("layer");
    layer.clear();
    assert!(layer.is_empty());
    assert_eq!(layer.len(), 0);
}
