use bitty_ui::panel::PanelId;
use bitty_ui::placement::{
    FocusTarget, PLACEMENT_DIRECTION, Placement, PlacementError, PlacementOption,
    TRANSITIONAL_ENCODING, resolve_focus,
};
use bitty_ui::view::ViewId;

fn panel(raw: u64) -> PanelId {
    PanelId::new(raw)
}

fn view(raw: u64) -> ViewId {
    ViewId::new(raw)
}

#[test]
fn bind_and_lookup_roundtrip() {
    let mut placement = Placement::new();
    assert!(placement.is_empty());
    placement.bind(panel(1), view(10)).unwrap();
    assert_eq!(placement.view_of(panel(1)), Some(view(10)));
    assert_eq!(placement.panel_of(view(10)), Some(panel(1)));
    assert!(placement.is_bound(panel(1)));
    assert_eq!(placement.len(), 1);
}

#[test]
fn double_bind_same_panel_fails_closed() {
    let mut placement = Placement::new();
    placement.bind(panel(1), view(10)).unwrap();
    let err = placement.bind(panel(1), view(11)).unwrap_err();
    assert_eq!(err, PlacementError::PanelAlreadyMounted { panel: panel(1) });
    assert_eq!(placement.view_of(panel(1)), Some(view(10)));
}

#[test]
fn bind_occupied_view_fails_closed() {
    let mut placement = Placement::new();
    placement.bind(panel(1), view(10)).unwrap();
    let err = placement.bind(panel(2), view(10)).unwrap_err();
    assert_eq!(err, PlacementError::ViewOccupied { view: view(10) });
    assert_eq!(placement.panel_of(view(10)), Some(panel(1)));
}

#[test]
fn unbind_suspends_without_destroying_identity() {
    let mut placement = Placement::new();
    placement.bind(panel(1), view(10)).unwrap();
    assert_eq!(placement.unbind(panel(1)), Ok(view(10)));
    assert!(!placement.is_bound(panel(1)));
    assert_eq!(placement.panel_of(view(10)), None);
    placement.bind(panel(1), view(11)).unwrap();
    assert_eq!(placement.view_of(panel(1)), Some(view(11)));
}

#[test]
fn unbind_unknown_panel_fails() {
    let mut placement = Placement::new();
    assert_eq!(
        placement.unbind(panel(9)),
        Err(PlacementError::NotMounted { panel: panel(9) })
    );
}

#[test]
fn reparent_preserves_both_identities() {
    let mut placement = Placement::new();
    placement.bind(panel(1), view(10)).unwrap();
    placement.reparent(panel(1), view(11)).unwrap();
    assert_eq!(placement.view_of(panel(1)), Some(view(11)));
    assert_eq!(placement.panel_of(view(10)), None);
    assert_eq!(placement.panel_of(view(11)), Some(panel(1)));
    placement.reparent(panel(1), view(11)).unwrap();
    assert_eq!(placement.len(), 1);
}

#[test]
fn reparent_to_occupied_view_fails_closed() {
    let mut placement = Placement::new();
    placement.bind(panel(1), view(10)).unwrap();
    placement.bind(panel(2), view(11)).unwrap();
    let err = placement.reparent(panel(1), view(11)).unwrap_err();
    assert_eq!(err, PlacementError::ViewOccupied { view: view(11) });
    assert_eq!(placement.view_of(panel(1)), Some(view(10)));
}

#[test]
fn panel_focus_wins_over_view_focus() {
    assert_eq!(
        resolve_focus(Some(panel(1)), Some(view(10))),
        Some(FocusTarget::Panel(panel(1)))
    );
    assert_eq!(
        resolve_focus(None, Some(view(10))),
        Some(FocusTarget::View(view(10)))
    );
    assert_eq!(resolve_focus(None, None), None);
}

#[test]
fn accepted_direction_is_option_a() {
    assert_eq!(PLACEMENT_DIRECTION, PlacementOption::A);
    assert_eq!(TRANSITIONAL_ENCODING, "ViewContent::Panel(PanelId)");
}
