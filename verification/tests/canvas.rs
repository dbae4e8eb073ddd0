use bitty_ui::a11y::Line;
use bitty_ui::beacon_target::UiNodeId;
use bitty_ui::canvas::{
    CanvasCommand, CanvasDisplayList, CanvasError, CanvasLayer, MAX_CANVAS_COMMANDS,
    MAX_CANVAS_COORD, MAX_CANVAS_RADIUS, MAX_CANVAS_SURFACES, MAX_CANVAS_TEXT_LEN,
};

fn list(node: u64) -> CanvasDisplayList {
    CanvasDisplayList::new(UiNodeId::new(node))
}

#[test]
fn push_accepts_valid_commands_in_order() {
    let mut display = list(1);
    display
        .push(CanvasCommand::FillRect {
            x: 0,
            y: 0,
            w: 8,
            h: 4,
        })
        .expect("valid rect");
    display
        .push(CanvasCommand::Text {
            x: 1,
            y: 1,
            body: "hi".to_string(),
        })
        .expect("valid text");
    assert_eq!(display.len(), 2);
    assert_eq!(display.commands()[0].as_str(), "fill-rect");
    assert_eq!(display.commands()[1].as_str(), "text");
}

#[test]
fn push_caps_commands_fail_closed() {
    let mut display = list(1);
    for _ in 0..MAX_CANVAS_COMMANDS {
        display
            .push(CanvasCommand::Line {
                x0: 0,
                y0: 0,
                x1: 1,
                y1: 1,
            })
            .expect("room remains");
    }
    let err = display
        .push(CanvasCommand::Line {
            x0: 0,
            y0: 0,
            x1: 1,
            y1: 1,
        })
        .expect_err("overflow must fail");
    assert_eq!(
        err,
        CanvasError::TooManyCommands {
            found: MAX_CANVAS_COMMANDS + 1,
            cap: MAX_CANVAS_COMMANDS
        }
    );
    assert_eq!(display.len(), MAX_CANVAS_COMMANDS);
}

#[test]
fn empty_rect_and_bad_radius_fail_closed() {
    let mut display = list(1);
    let err = display
        .push(CanvasCommand::FillRect {
            x: 0,
            y: 0,
            w: 0,
            h: 4,
        })
        .expect_err("empty rect must fail");
    assert_eq!(err, CanvasError::EmptyRect { w: 0, h: 4 });
    let err = display
        .push(CanvasCommand::Circle { cx: 0, cy: 0, r: 0 })
        .expect_err("zero radius must fail");
    assert_eq!(
        err,
        CanvasError::BadRadius {
            r: 0,
            cap: MAX_CANVAS_RADIUS
        }
    );
    assert!(display.is_empty());
}

#[test]
fn out_of_range_coord_fails_closed() {
    let err = CanvasCommand::Line {
        x0: MAX_CANVAS_COORD + 1,
        y0: 0,
        x1: 0,
        y1: 0,
    }
    .validate()
    .expect_err("oversized coord must fail");
    assert_eq!(
        err,
        CanvasError::CoordOutOfRange {
            value: MAX_CANVAS_COORD + 1,
            bound: MAX_CANVAS_COORD
        }
    );
}

#[test]
fn oversized_text_fails_closed() {
    let big = "x".repeat(MAX_CANVAS_TEXT_LEN + 1);
    let err = CanvasCommand::Text {
        x: 0,
        y: 0,
        body: big,
    }
    .validate()
    .expect_err("oversized text must fail");
    assert_eq!(
        err,
        CanvasError::TextTooLong {
            len: MAX_CANVAS_TEXT_LEN + 1,
            cap: MAX_CANVAS_TEXT_LEN
        }
    );
}

#[test]
fn identical_resubmission_does_not_bump_revision() {
    let mut layer = CanvasLayer::new();
    let mut first = list(1);
    first
        .push(CanvasCommand::Circle { cx: 2, cy: 2, r: 3 })
        .expect("valid circle");
    let report = layer.submit(first.clone()).expect("valid list");
    assert!(report.changed);
    assert_eq!(report.revision, 1);
    let report = layer.submit(first).expect("valid list");
    assert!(!report.changed);
    assert_eq!(report.revision, 1);
    assert_eq!(layer.revision(), 1);
}

#[test]
fn rejected_submit_keeps_retained_state() {
    let mut layer = CanvasLayer::new();
    let mut kept = list(1);
    kept.push(CanvasCommand::Line {
        x0: 0,
        y0: 0,
        x1: 1,
        y1: 1,
    })
    .expect("valid line");
    layer.submit(kept).expect("valid list");
    let bad = vec![CanvasCommand::FillRect {
        x: 0,
        y: 0,
        w: -1,
        h: 2,
    }];
    let err = layer
        .submit_commands(UiNodeId::new(2), bad)
        .expect_err("invalid list must fail");
    assert_eq!(err, CanvasError::EmptyRect { w: -1, h: 2 });
    assert_eq!(layer.len(), 1);
    assert_eq!(layer.revision(), 1);
    assert!(layer.get(UiNodeId::new(2)).is_none());
}

#[test]
fn layer_caps_surfaces_and_remove_bumps_revision() {
    let mut layer = CanvasLayer::new();
    for raw in 0..MAX_CANVAS_SURFACES as u64 {
        layer.submit(list(raw)).expect("room remains");
    }
    let err = layer
        .submit(list(MAX_CANVAS_SURFACES as u64))
        .expect_err("overflow must fail");
    assert_eq!(
        err,
        CanvasError::TooManySurfaces {
            found: MAX_CANVAS_SURFACES + 1,
            cap: MAX_CANVAS_SURFACES
        }
    );
    let before = layer.revision();
    assert!(layer.remove(UiNodeId::new(0)));
    assert_eq!(layer.revision(), before.wrapping_add(1));
    assert!(!layer.remove(UiNodeId::new(0)));
    assert_eq!(layer.revision(), before.wrapping_add(1));
}

#[test]
fn error_display_is_human_readable() {
    assert_eq!(
        CanvasError::TooManyCommands {
            found: 257,
            cap: 256
        }
        .text(),
        "canvas display list too long: 257 commands exceeds cap 256"
    );
}
