use bitty_ui::float32::Float32;
use bitty_ui::geometry::{Gaps, Rect, SplitAxis};
use bitty_ui::layout::{LayoutNode, OverlayTier};
use bitty_ui::panel::PanelId;
use bitty_ui::panel_command::CommandRegistry;
use bitty_ui::presentation::{
    PRESENTATION_CMD_FLOATING, PRESENTATION_CMD_FULLSCREEN, PRESENTATION_CMD_SCRATCHPAD,
    PRESENTATION_CMD_TILED, PresentationCommandError, PresentationMode, apply_presentation_command,
    presentation_command_for_mode, presentation_mode_for_command,
};
use bitty_ui::view::{LeafView, ViewId};

fn single(value: f32) -> Float32 {
    Float32::from_bits(value.to_bits())
}

#[test]
fn default_is_tiled() {
    assert_eq!(PresentationMode::default(), PresentationMode::Tiled);
    assert!(PresentationMode::default().is_tiled());
}

#[test]
fn discriminants_stable_and_tier_aligned() {
    assert_eq!(PresentationMode::Tiled as u8, 0);
    assert_eq!(PresentationMode::Floating as u8, 1);
    assert_eq!(PresentationMode::Fullscreen as u8, 2);
    assert_eq!(PresentationMode::Scratchpad as u8, 3);
    assert_eq!(OverlayTier::Float as u8, 1);
    assert_eq!(OverlayTier::BOTTOM, OverlayTier::Editor);
    assert_eq!(OverlayTier::TOP, OverlayTier::Messages);
}

#[test]
fn parse_roundtrip_all_modes() {
    for mode in [
        PresentationMode::Tiled,
        PresentationMode::Floating,
        PresentationMode::Fullscreen,
        PresentationMode::Scratchpad,
    ] {
        assert_eq!(PresentationMode::parse(mode.as_str()), Some(mode));
        assert_eq!(mode.text(), mode.as_str());
    }
}

#[test]
fn parse_rejects_unknown_and_aliases() {
    for bad in [
        "",
        " ",
        "TILED",
        "Tiled",
        " tiled",
        "tiled ",
        "zoom",
        "overlay",
        "panel",
        "float",
        "full-screen",
        "scratchpad_hidden",
    ] {
        assert_eq!(PresentationMode::parse(bad), None, "input {bad:?}");
    }
}

#[test]
fn can_transition_allows_every_pair_cw08() {
    let all = [PresentationMode::Tiled, PresentationMode::Floating, PresentationMode::Fullscreen, PresentationMode::Scratchpad];
    for from in all {
        for to in all {
            assert!(PresentationMode::can_transition(from, to), "{from:?} -> {to:?}");
        }
    }
}

#[test]
fn request_transition_stamps_leaf_through_gate() {
    let mut leaf = LeafView::new(ViewId::new(1), 80, 24);
    assert_eq!(leaf.presentation(), PresentationMode::Tiled);
    assert!(PresentationMode::request_transition(
        &mut leaf,
        PresentationMode::Floating
    ));
    assert_eq!(leaf.presentation(), PresentationMode::Floating);
    assert!(PresentationMode::request_transition(
        &mut leaf,
        PresentationMode::Floating
    ));
    assert_eq!(leaf.presentation(), PresentationMode::Floating);
}

#[test]
fn command_names_roundtrip_and_reject_unknown() {
    for mode in [PresentationMode::Tiled, PresentationMode::Floating, PresentationMode::Fullscreen, PresentationMode::Scratchpad] {
        let cmd = presentation_command_for_mode(mode);
        assert_eq!(presentation_mode_for_command(cmd), Some(mode));
    }
    assert_eq!(presentation_mode_for_command("bitty.workspace:zoom"), None);
    assert_eq!(presentation_mode_for_command(""), None);
    assert_eq!(presentation_mode_for_command("tiled"), None);
}

#[test]
fn apply_presentation_command_routes_through_registry() {
    let mut registry = CommandRegistry::new();
    let owner = PanelId::new(1);
    for mode in [
        PresentationMode::Tiled,
        PresentationMode::Floating,
        PresentationMode::Fullscreen,
        PresentationMode::Scratchpad,
    ] {
        registry
            .register(owner, presentation_command_for_mode(mode))
            .expect("presentation command registers");
    }
    let id = ViewId::new(9);
    let mut tree = LayoutNode::leaf(LeafView::new(id, 80, 24));
    for (command, want) in [
        (PRESENTATION_CMD_FLOATING, PresentationMode::Floating),
        (PRESENTATION_CMD_FULLSCREEN, PresentationMode::Fullscreen),
        (PRESENTATION_CMD_SCRATCHPAD, PresentationMode::Scratchpad),
        (PRESENTATION_CMD_TILED, PresentationMode::Tiled),
    ] {
        assert_eq!(registry.owner_of(command), Some(owner));
        let got =
            apply_presentation_command(&mut tree, command, id).expect("transition routes");
        assert_eq!(got, want);
        assert_eq!(tree.find_leaf(id).expect("leaf").presentation(), want);
    }
    let before = tree.clone();
    assert!(matches!(
        apply_presentation_command(&mut tree, "bitty.workspace:nope", id),
        Err(PresentationCommandError::UnknownCommand(_))
    ));
    assert_eq!(tree, before);
    assert!(matches!(
        apply_presentation_command(&mut tree, PRESENTATION_CMD_FLOATING, ViewId::new(404)),
        Err(PresentationCommandError::LeafNotFound(_))
    ));
    let bounds = Rect::new(0, 0, 100, 40);
    let plain = LayoutNode::leaf(LeafView::new(id, 80, 24));
    assert_eq!(plain.layout(bounds), tree.layout(bounds));
}

#[test]
fn overlay_tier_reuses_float_for_overlay_like_modes() {
    assert_eq!(PresentationMode::Tiled.overlay_tier(), None);
    assert_eq!(PresentationMode::Fullscreen.overlay_tier(), None);
    assert_eq!(
        PresentationMode::Floating.overlay_tier(),
        Some(OverlayTier::Float)
    );
    assert_eq!(
        PresentationMode::Scratchpad.overlay_tier(),
        Some(OverlayTier::Float)
    );
}

#[test]
fn layout_allocations_ignore_presentation_mode() {

    let bounds = Rect::new(0, 0, 100, 40);
    let base = LayoutNode::split(
        SplitAxis::Horizontal,
        single(0.5),
        LayoutNode::split(
            SplitAxis::Vertical,
            single(0.5),
            LayoutNode::leaf(LeafView::new(ViewId::new(1), 80, 24)),
            LayoutNode::leaf(LeafView::new(ViewId::new(2), 80, 24)),
        ),
        LayoutNode::leaf(LeafView::new(ViewId::new(3), 80, 24)),
    );
    let mut stamped = base.clone();
    for (id, mode) in [
        (ViewId::new(1), PresentationMode::Floating),
        (ViewId::new(2), PresentationMode::Fullscreen),
        (ViewId::new(3), PresentationMode::Scratchpad),
    ] {
        let leaf = stamped.find_leaf_mut(id).expect("leaf present");
        leaf.set_presentation(mode);
    }
    assert_eq!(base.layout(bounds), stamped.layout(bounds));
    assert_eq!(
        base.layout_with_gaps(bounds, Gaps::zero()),
        stamped.layout_with_gaps(bounds, Gaps::zero())
    );
}
