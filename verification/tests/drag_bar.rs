use bitty_ui::drag_bar::{BAR_MOVE_CMD, BarDropSession, BarOutcome, BarZone, classify_bar_drop};
use bitty_ui::panel::PanelId;

#[test]
fn zones_split_center_from_edges() {
    assert_eq!(classify_bar_drop(20, 0), Some(BarZone::NewWorkspace));
    assert_eq!(classify_bar_drop(20, 19), Some(BarZone::NewWorkspace));
    assert_eq!(classify_bar_drop(20, 10), Some(BarZone::MoveSwitch));
    assert_eq!(classify_bar_drop(20, 20), None);
    assert_eq!(classify_bar_drop(4, 0), Some(BarZone::MoveSwitch));
}

#[test]
fn cancel_leaves_everything_untouched() {
    let session = BarDropSession::lift(PanelId::new(1), true, BAR_MOVE_CMD).unwrap();
    assert_eq!(session.cancel(), BarOutcome::Cancelled);
}
