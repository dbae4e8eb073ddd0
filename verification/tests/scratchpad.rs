use bitty_ui::float32::Float32;
use bitty_ui::geometry::{Rect, SplitAxis};
use bitty_ui::layout::LayoutNode;
use bitty_ui::panel::PanelId;
use bitty_ui::panel_command::CommandRegistry;
use bitty_ui::presentation::PresentationMode;
use bitty_ui::scratchpad::{
    SCRATCHPAD_CMD_TOGGLE, ScratchpadError, ScratchpadSlot, apply_scratchpad_toggle,
};
use bitty_ui::view::{LeafView, ViewId};

fn single(value: f32) -> Float32 {
    Float32::from_bits(value.to_bits())
}

fn leaf(id: u64) -> LayoutNode {
    LayoutNode::leaf(LeafView::new(ViewId::new(id), 40, 24))
}

fn pair() -> LayoutNode {
    LayoutNode::split(SplitAxis::Horizontal, single(0.5), leaf(1), leaf(2))
}

#[test]
fn hide_show_roundtrip_restores_order_and_modes() {
    let mut tree = pair();
    let mut slot = ScratchpadSlot::new();
    assert!(slot.is_empty());

    slot.stash(&mut tree, ViewId::new(1)).expect("hide leaf 1");
    assert!(!slot.is_empty());
    assert_eq!(tree.leaf_ids(), vec![ViewId::new(2)]);
    assert_eq!(
        slot.peek().expect("parked").presentation(),
        PresentationMode::Scratchpad
    );

    let restored = slot.show(&mut tree).expect("show");
    assert_eq!(restored, ViewId::new(1));
    assert!(slot.is_empty());
    assert_eq!(tree.leaf_ids(), vec![ViewId::new(1), ViewId::new(2)]);
    assert_eq!(
        tree.find_leaf(ViewId::new(1)).expect("leaf").presentation(),
        PresentationMode::Tiled
    );
    let alloc = tree.layout(Rect::new(0, 0, 80, 24));
    assert_eq!(alloc.len(), 2);
    assert_eq!(alloc[0].1.width as u32 + alloc[1].1.width as u32, 80);
}

#[test]
fn hide_occupied_or_unknown_leaves_tree_untouched() {
    let mut tree = pair();
    let mut slot = ScratchpadSlot::new();
    slot.stash(&mut tree, ViewId::new(1)).expect("hide");
    let before = tree.clone();
    assert_eq!(
        slot.stash(&mut tree, ViewId::new(2)),
        Err(ScratchpadError::Occupied)
    );
    assert_eq!(tree, before);
    assert_eq!(
        slot.stash(&mut tree, ViewId::new(404)),
        Err(ScratchpadError::Occupied),
        "occupancy is checked before lookup"
    );
    assert_eq!(tree, before);

    let mut slot2 = ScratchpadSlot::new();
    let before2 = tree.clone();
    assert_eq!(
        slot2.stash(&mut tree, ViewId::new(404)),
        Err(ScratchpadError::LeafNotFound(ViewId::new(404)))
    );
    assert_eq!(tree, before2);
}

#[test]
fn show_vacant_fails() {
    let mut tree = pair();
    let mut slot = ScratchpadSlot::new();
    assert_eq!(slot.show(&mut tree), Err(ScratchpadError::Vacant));
    assert_eq!(tree, pair(), "vacant show touches nothing");
}

#[test]
fn toggle_hides_then_shows_target_ignored_on_show() {
    let mut tree = pair();
    let mut slot = ScratchpadSlot::new();
    assert_eq!(
        slot.toggle(&mut tree, None),
        Err(ScratchpadError::MissingTarget)
    );
    assert_eq!(slot.toggle(&mut tree, Some(ViewId::new(2))), Ok(None));
    assert_eq!(tree.leaf_ids(), vec![ViewId::new(1)]);
    assert_eq!(
        slot.toggle(&mut tree, Some(ViewId::new(1))),
        Ok(Some(ViewId::new(2)))
    );
    assert_eq!(tree.leaf_ids(), vec![ViewId::new(1), ViewId::new(2)]);
}

#[test]
fn unknown_command_rejected_before_lookup() {
    let mut tree = pair();
    let mut slot = ScratchpadSlot::new();
    let before = tree.clone();
    assert_eq!(
        apply_scratchpad_toggle(
            &mut slot,
            &mut tree,
            "bitty.workspace:nope",
            Some(ViewId::new(1))
        ),
        Err(ScratchpadError::UnknownCommand(
            "bitty.workspace:nope".to_string()
        ))
    );
    assert_eq!(tree, before);
    assert!(slot.is_empty());
    let mut registry = CommandRegistry::new();
    let owner = PanelId::new(7);
    registry
        .register(owner, SCRATCHPAD_CMD_TOGGLE)
        .expect("toggle command registers");
    assert_eq!(registry.owner_of(SCRATCHPAD_CMD_TOGGLE), Some(owner));
    assert_eq!(
        apply_scratchpad_toggle(
            &mut slot,
            &mut tree,
            SCRATCHPAD_CMD_TOGGLE,
            Some(ViewId::new(1))
        ),
        Ok(None)
    );
    assert_eq!(tree.leaf_ids(), vec![ViewId::new(2)]);
}

#[test]
fn show_after_anchor_closed_docks_beside_first_live_leaf() {
    let mut tree = LayoutNode::split(
        SplitAxis::Horizontal,
        single(0.5),
        leaf(1),
        LayoutNode::split(SplitAxis::Vertical, single(0.5), leaf(2), leaf(3)),
    );
    let mut slot = ScratchpadSlot::new();
    slot.stash(&mut tree, ViewId::new(2)).expect("hide");
    assert!(tree.remove_leaf(ViewId::new(3)).is_some());
    let restored = slot.show(&mut tree).expect("show with dead anchor");
    assert_eq!(restored, ViewId::new(2));
    assert_eq!(tree.leaf_count(), 2);
    assert!(tree.find_leaf(ViewId::new(2)).is_some());
    let alloc = tree.layout(Rect::new(0, 0, 80, 24));
    assert_eq!(alloc.len(), 2);
}

#[test]
fn show_into_emptied_tree_becomes_leaf() {
    let mut tree = LayoutNode::leaf(LeafView::new(ViewId::new(1), 80, 24));
    let mut slot = ScratchpadSlot::new();
    slot.stash(&mut tree, ViewId::new(1))
        .expect("hide sole leaf");
    assert_eq!(tree.leaf_count(), 0);
    assert_eq!(slot.show(&mut tree), Ok(ViewId::new(1)));
    assert_eq!(tree.leaf_ids(), vec![ViewId::new(1)]);
}
