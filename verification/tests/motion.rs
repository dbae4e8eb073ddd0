use bitty_ui::float32::Float32;
use bitty_ui::motion::{
    MAX_MOTION_DURATION_MS, MotionConfig, MotionCurve, MotionError, MotionScope, MotionSpec,
    MotionValue,
};

fn single(value: f32) -> Float32 {
    Float32::from_bits(value.to_bits())
}

fn spec(ms: u16) -> MotionSpec {
    MotionSpec::new(ms, MotionCurve::Linear).expect("valid spec")
}

#[test]
fn overlong_duration_fails_closed() {
    let err = MotionSpec::new(MAX_MOTION_DURATION_MS + 1, MotionCurve::Linear)
        .expect_err("overlong duration must fail");
    assert_eq!(
        err,
        MotionError::DurationTooLong {
            found: MAX_MOTION_DURATION_MS + 1,
            cap: MAX_MOTION_DURATION_MS,
        }
    );
    assert_eq!(
        err.text(),
        "motion duration too long: 2001ms exceeds cap 2000ms"
    );
}

#[test]
fn resolution_falls_through_to_nearest_ancestor() {
    let default = spec(100);
    let panel = spec(200);
    let open = spec(300);
    let config = MotionConfig::new(default).with_panel(panel).with_open(open);
    assert_eq!(config.resolve(MotionScope::Default), default);
    assert_eq!(config.resolve(MotionScope::Panel), panel);
    assert_eq!(config.resolve(MotionScope::Open), open);
    assert_eq!(config.resolve(MotionScope::Move), panel);
    assert_eq!(config.resolve(MotionScope::Close), panel);
    let bare = MotionConfig::new(default);
    for scope in [
        MotionScope::Default,
        MotionScope::Panel,
        MotionScope::Open,
        MotionScope::Move,
        MotionScope::Close,
    ] {
        assert_eq!(bare.resolve(scope), default, "{}", scope.as_str());
    }
}

#[test]
fn reduced_motion_forces_every_scope_instant() {
    let config = MotionConfig::new(spec(400))
        .with_panel(spec(300))
        .with_open(spec(200))
        .with_move(spec(200))
        .with_close(spec(100))
        .with_reduced_motion(true);
    assert!(config.reduced_motion());
    for scope in [
        MotionScope::Default,
        MotionScope::Panel,
        MotionScope::Open,
        MotionScope::Move,
        MotionScope::Close,
    ] {
        let resolved = config.resolve(scope);
        assert_eq!(resolved, MotionSpec::instant(), "{}", scope.as_str());
        assert!(resolved.is_instant());
    }
}

#[test]
fn retarget_steps_to_settled_with_zero_terminal_wakeup() {
    let mut value = MotionValue::new(single(0.0), spec(150));
    assert!(!value.needs_wakeup());
    value.set_target(single(100.0));
    assert!(!value.is_settled());
    assert!(value.needs_wakeup());
    assert_eq!(value.step(single(0.0), single(0.0), single(0.0)), single(0.0));
    assert!(value.needs_wakeup());
    let landed = value.step(single(1.0), single(1.0), single(100.0));
    assert_eq!(landed, single(100.0));
    assert!(value.is_settled());
    assert!(!value.needs_wakeup());
}

#[test]
fn instant_values_never_need_wakeups() {
    let mut value = MotionValue::new(single(0.0), MotionSpec::instant());
    value.set_target(single(50.0));
    assert!(value.is_settled());
    assert!(!value.needs_wakeup());
    assert_eq!(value.current(), single(50.0));
    let mut animated = MotionValue::new(single(0.0), spec(150));
    animated.set_target(single(80.0));
    assert!(animated.needs_wakeup());
    animated.set_spec(MotionSpec::instant());
    assert!(animated.is_settled());
    assert!(!animated.needs_wakeup());
}

#[test]
fn scope_spellings_cover_the_hierarchy() {
    assert_eq!(MotionScope::Default.as_str(), "motion.default");
    assert_eq!(MotionScope::Panel.as_str(), "panel");
    assert_eq!(MotionScope::Open.as_str(), "panel.open");
    assert_eq!(MotionScope::Move.as_str(), "panel.move");
    assert_eq!(MotionScope::Close.as_str(), "panel.close");
}
