use bitty_ui::beacon_target::UiNodeId;
use bitty_ui::panel::PanelId;
use bitty_ui::panel_record::{PanelRecord, RehydrateError};
use bitty_ui::panel_state::{
    PanelActivity, PanelAttention, PanelInteraction, PanelLifecycle, PanelVisibility,
    SevenPanelState,
};
use bitty_ui::presentation::PresentationMode;

fn mounted(panel: u64) -> SevenPanelState {
    let mut s = SevenPanelState::new(PanelId::new(panel), UiNodeId::new(panel + 1000));
    s.set_lifecycle(PanelLifecycle::Created).unwrap();
    s.set_lifecycle(PanelLifecycle::Mounted).unwrap();
    s.set_visibility(PanelVisibility::Visible);
    s
}

#[test]
fn record_round_trip_covers_all_axes() {
    let mut s = mounted(7);
    s.set_presentation(PresentationMode::Floating);
    s.set_attention(PanelAttention::badge(42, "msgs;=\\end").unwrap());
    s.set_interaction(PanelInteraction::Typing);
    s.set_activity(PanelActivity::Active);
    let line = PanelRecord::capture(&s).encode();
    let back = PanelRecord::decode(&line).unwrap();
    assert_eq!(back, PanelRecord::capture(&s));
    let fresh = back.apply_fresh().unwrap();
    assert_eq!(fresh.lifecycle(), PanelLifecycle::Mounted);
    assert_eq!(fresh.presentation(), PresentationMode::Floating);
    assert_eq!(fresh.visibility(), PanelVisibility::Visible);
    assert_eq!(fresh.attention(), s.attention());
}

#[test]
fn unknown_fields_are_ignored() {
    let line = format!(
        "{};zzz_future=1;another=x",
        PanelRecord::capture(&mounted(3)).encode()
    );
    let back = PanelRecord::decode(&line).unwrap();
    assert_eq!(back.panel, 3);
}

#[test]
fn unsupported_version_rejects() {
    let line = PanelRecord::capture(&mounted(3))
        .encode()
        .replacen("v=1;", "v=2;", 1);
    assert!(matches!(
        PanelRecord::decode(&line),
        Err(RehydrateError::UnsupportedVersion { found: 2, .. })
    ));
}
