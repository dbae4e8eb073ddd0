use bitty_ui::geometry::Rect;
use bitty_ui::panel::{
    BrowserSurfaceId, InputTarget, PanelFocus, PanelId, PanelState, PanelType, ViewContent,
    route_input, validate_panel_bounds,
};
use bitty_ui::panel_command::{CommandError, CommandRegistry, MAX_COMMANDS_PER_PANEL_TYPE};
use bitty_ui::panel_overlay::{
    MAX_OVERLAY_TEXT_LEN, Overlay, OverlayError, OverlayKind, OverlayManager,
};
use bitty_ui::view::ViewId;

#[test]
fn panel_id_distinct_from_view_id() {
    let pid = PanelId::new(1);
    let vid = ViewId::new(1);
    assert_eq!(pid.0, vid.0);
    assert_ne!(
        std::any::TypeId::of::<PanelId>(),
        std::any::TypeId::of::<ViewId>()
    );
}

#[test]
fn lifecycle_transitions() {
    assert!(PanelState::can_transition(
        PanelState::Declared,
        PanelState::Created
    ));
    assert!(PanelState::can_transition(
        PanelState::Created,
        PanelState::Mounted
    ));
    assert!(!PanelState::can_transition(
        PanelState::Declared,
        PanelState::Focused
    ));
    assert!(PanelState::can_transition(
        PanelState::Focused,
        PanelState::Suspended
    ));
    assert!(PanelState::can_transition(
        PanelState::Suspended,
        PanelState::Mounted
    ));
    assert!(PanelState::can_transition(
        PanelState::Mounted,
        PanelState::Disposed
    ));
}

#[test]
fn panel_type_closed() {
    assert_eq!(PanelType::parse("terminal"), Some(PanelType::Terminal));
    assert_eq!(PanelType::parse("unknown"), None);
    assert_eq!(PanelType::parse("Terminal"), None);
}

#[test]
fn overlay_manager_enforces_4plus1() {
    let mut mgr = OverlayManager::new();
    let container = Rect::new(0, 0, 80, 24);
    for _ in 0..4 {
        mgr.create_overlay(OverlayKind::NonModal, container, "hello", None, 1)
            .unwrap();
    }
    assert_eq!(mgr.len(), 4);
    let err = mgr
        .create_overlay(OverlayKind::NonModal, container, "hello", None, 1)
        .unwrap_err();
    assert!(matches!(err, OverlayError::TooManyOverlays { .. }));
    mgr.create_overlay(OverlayKind::Modal, container, "modal", None, 1)
        .unwrap();
    assert_eq!(mgr.len(), 5);
    let err2 = mgr
        .create_overlay(OverlayKind::Modal, container, "modal2", None, 1)
        .unwrap_err();
    assert_eq!(err2, OverlayError::OverlayBusy);
    let first_id = mgr.overlays()[0].id;
    mgr.dismiss(first_id);
    assert_eq!(mgr.len(), 4);
    mgr.create_overlay(OverlayKind::NonModal, container, "again", None, 1)
        .unwrap();
    assert_eq!(mgr.len(), 5);
}

#[test]
fn overlay_text_truncation() {
    let long = "a".repeat(200);
    let o = Overlay::new(
        1,
        OverlayKind::NonModal,
        Rect::new(0, 0, 10, 10),
        &long,
        None,
        1,
    );
    assert_eq!(o.text.chars().count(), MAX_OVERLAY_TEXT_LEN);
    assert!(o.truncated);
    let short = "hi";
    let o2 = Overlay::new(
        2,
        OverlayKind::NonModal,
        Rect::new(0, 0, 10, 10),
        short,
        None,
        1,
    );
    assert!(!o2.truncated);
}

#[test]
fn command_registry_owner_name_command() {
    let mut reg = CommandRegistry::new();
    let pid = PanelId::new(1);
    let qc = reg.register(pid, "xuepoo.git:open").unwrap();
    assert_eq!(qc.as_str(), "xuepoo.git:open");
    let pid2 = PanelId::new(2);
    let err = reg.register(pid2, "xuepoo.git:open").unwrap_err();
    assert!(matches!(err, CommandError::Duplicate { .. }));
    assert!(reg.register(pid, "badcommand").is_err());
    assert!(reg.register(pid, "OWNER.name:cmd").is_err());
    assert!(reg.register(pid, "xuepoo.git:").is_err());
    let mut reg2 = CommandRegistry::new();
    let pid3 = PanelId::new(3);
    for i in 0..MAX_COMMANDS_PER_PANEL_TYPE {
        reg2.register(pid3, &format!("xuepoo.test:cmd{i}")).unwrap();
    }
    let err2 = reg2.register(pid3, "xuepoo.test:overflow").unwrap_err();
    assert!(matches!(err2, CommandError::TooManyCommands { .. }));
}

#[test]
fn panel_focus_mru() {
    let mut focus = PanelFocus::new();
    let p1 = PanelId::new(1);
    let p2 = PanelId::new(2);
    let p3 = PanelId::new(3);
    focus.set(p1);
    focus.set(p2);
    focus.set(p3);
    assert_eq!(focus.focused(), Some(p3));
    assert_eq!(focus.mru_order(), vec![p3, p2, p1]);
    focus.on_panel_hidden(p3);
    assert_eq!(focus.focused(), Some(p2));
    assert_eq!(focus.mru_order(), vec![p2, p1]);
    focus.set(p3);
    focus.on_panel_hidden(p1);
    assert_eq!(focus.mru_order(), vec![p3, p2]);
}

#[test]
fn input_routing() {
    let pid = PanelId::new(42);
    let vid = ViewId::new(7);
    assert_eq!(route_input(Some(pid), Some(vid)), InputTarget::Panel(pid));
    assert_eq!(route_input(None, Some(vid)), InputTarget::View(vid));
    assert_eq!(route_input(None, None), InputTarget::Nothing);
}

#[test]
fn view_content_panel() {
    let pid = PanelId::new(10);
    let vc = ViewContent::Panel(pid);
    assert!(vc.is_panel());
    assert_eq!(vc.panel_id(), Some(pid));
    let empty = ViewContent::Empty;
    assert!(!empty.is_panel());
}

#[test]
fn view_content_browser() {
    let bid = BrowserSurfaceId::new(10);
    let vc = ViewContent::Browser(bid);
    assert!(vc.is_browser());
    assert_eq!(vc.browser_id(), Some(bid));
    assert!(!vc.is_panel());
    let empty = ViewContent::Empty;
    assert!(!empty.is_browser());
}

#[test]
fn browser_surface_id_distinct_from_panel_and_view() {
    let bid = BrowserSurfaceId::new(1);
    let pid = PanelId::new(1);
    let vid = ViewId::new(1);
    assert_eq!(bid.0, pid.0);
    assert_eq!(bid.0, vid.0);
    assert_ne!(
        std::any::TypeId::of::<BrowserSurfaceId>(),
        std::any::TypeId::of::<PanelId>()
    );
    assert_ne!(
        std::any::TypeId::of::<BrowserSurfaceId>(),
        std::any::TypeId::of::<ViewId>()
    );
}

#[test]
fn validate_panel_bounds_clipping() {
    let container = Rect::new(0, 0, 100, 100);
    let bounds = Rect::new(10, 10, 20, 20);
    assert_eq!(
        validate_panel_bounds(bounds, container),
        Some(bounds)
    );
    let outside = Rect::new(200, 200, 10, 10);
    assert_eq!(
        validate_panel_bounds(outside, container),
        None
    );
}
