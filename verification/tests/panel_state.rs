use bitty_ui::beacon_target::UiNodeId;
use bitty_ui::panel::PanelId;
use bitty_ui::panel_state::{
    MAX_BADGE_COUNT, MAX_BADGE_TEXT_LEN, PanelAttention, PanelFocusState, PanelLifecycle,
    PanelStateError, PanelVisibility, SevenPanelState,
};

fn state() -> SevenPanelState {
    SevenPanelState::new(PanelId::new(1), UiNodeId::new(2))
}

#[test]
fn close_parks_but_retains_plugin() {
    let mut s = state();
    s.set_lifecycle(PanelLifecycle::Created).unwrap();
    s.set_lifecycle(PanelLifecycle::Mounted).unwrap();
    s.focus_panel().unwrap();
    let out = s.close().unwrap();
    assert!(out.plugin_retained);
    assert!(out.reopenable);
    assert_eq!(s.lifecycle(), PanelLifecycle::Closed);
    assert_eq!(s.visibility(), PanelVisibility::Hidden);
    assert_eq!(s.focus(), PanelFocusState::Unfocused);
    s.reopen().unwrap();
    assert_eq!(s.lifecycle(), PanelLifecycle::Mounted);
}

#[test]
fn disposed_rejects_close_and_transitions() {
    let mut s = state();
    s.set_lifecycle(PanelLifecycle::Created).unwrap();
    s.set_lifecycle(PanelLifecycle::Mounted).unwrap();
    s.set_lifecycle(PanelLifecycle::Disposed).unwrap();
    assert_eq!(s.close(), Err(PanelStateError::AlreadyDisposed));
}

#[test]
fn badge_text_bound_rejects() {
    let long = "x".repeat(MAX_BADGE_TEXT_LEN + 1);
    assert!(PanelAttention::badge(1, &long).is_err());
    let ok = "x".repeat(MAX_BADGE_TEXT_LEN);
    assert!(PanelAttention::badge(1, &ok).is_ok());
    let big = PanelAttention::badge(5000, "msgs").unwrap();
    assert_eq!(big.display_count(), Some(MAX_BADGE_COUNT));
    assert!(big.is_saturated());
}
