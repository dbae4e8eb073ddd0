use bitty_ui::beacon_target::{
    CommandBlockId, LinkId, MAX_TARGETS_PER_KIND, PanelRef, TargetError, TargetRef, TargetRegistry,
    UiNodeId, WorkspaceId,
};
use bitty_ui::panel::PanelId;
use bitty_ui::uitree::UiNode;

fn all_kinds(registry: &mut TargetRegistry) -> Vec<TargetRef> {
    vec![
        TargetRef::Panel(registry.insert_panel(PanelId::new(1)).expect("panel")),
        TargetRef::Workspace(
            registry
                .insert_workspace(WorkspaceId::new(2))
                .expect("workspace"),
        ),
        TargetRef::CommandBlock(
            registry
                .insert_block(CommandBlockId::new(3))
                .expect("block"),
        ),
        TargetRef::UiNode(registry.insert_node(UiNodeId::new(4)).expect("node")),
        TargetRef::Link(registry.insert_link(LinkId::new(5)).expect("link")),
    ]
}

#[test]
fn fresh_handles_resolve() {
    let mut registry = TargetRegistry::new();
    assert!(registry.is_empty());
    for target in all_kinds(&mut registry) {
        assert_eq!(registry.resolve(&target), Ok(target));
    }
    assert_eq!(registry.len(), 5);
}

#[test]
fn retired_id_fails_closed() {
    let mut registry = TargetRegistry::new();
    let targets = all_kinds(&mut registry);
    assert!(registry.retire_panel(PanelId::new(1)));
    assert!(registry.retire_workspace(WorkspaceId::new(2)));
    assert!(registry.retire_block(CommandBlockId::new(3)));
    assert!(registry.retire_node(UiNodeId::new(4)));
    assert!(registry.retire_link(LinkId::new(5)));
    for target in &targets {
        assert!(matches!(
            registry.resolve(target),
            Err(TargetError::StaleTarget(_))
        ));
    }
}

#[test]
fn reregister_stales_prior_handle() {
    let mut registry = TargetRegistry::new();
    let first = registry.insert_link(LinkId::new(9)).expect("link");
    let second = registry.insert_link(LinkId::new(9)).expect("link");
    assert_ne!(first.generation, second.generation);
    assert!(matches!(
        registry.resolve(&TargetRef::Link(first)),
        Err(TargetError::StaleTarget(_))
    ));
    assert_eq!(
        registry.resolve(&TargetRef::Link(second)),
        Ok(TargetRef::Link(second))
    );
}

#[test]
fn reregister_after_retire_never_reuses_generation() {
    let mut registry = TargetRegistry::new();
    let first = registry.insert_panel(PanelId::new(7)).expect("panel");
    assert!(registry.retire_panel(PanelId::new(7)));
    let second = registry.insert_panel(PanelId::new(7)).expect("panel");
    assert_ne!(first.generation, second.generation);
    assert!(matches!(
        registry.resolve(&TargetRef::Panel(first)),
        Err(TargetError::StaleTarget(_))
    ));
    assert_eq!(
        registry.resolve(&TargetRef::Panel(second)),
        Ok(TargetRef::Panel(second))
    );
}

#[test]
fn never_registered_is_unknown_not_stale() {
    let registry = TargetRegistry::new();
    let ghost = TargetRef::Panel(PanelRef {
        id: PanelId::new(4242),
        generation: 0,
    });
    assert!(matches!(
        registry.resolve(&ghost),
        Err(TargetError::UnknownTarget(_))
    ));
}

#[test]
fn target_enum_covers_exactly_five_surfaces() {
    let mut registry = TargetRegistry::new();
    for target in all_kinds(&mut registry) {
        let kind = match target {
            TargetRef::Panel(_) => "panel",
            TargetRef::Workspace(_) => "workspace",
            TargetRef::CommandBlock(_) => "block",
            TargetRef::UiNode(_) => "node",
            TargetRef::Link(_) => "link",
        };
        assert!(registry.resolve(&target).is_ok(), "{kind} must resolve");
    }
}

#[test]
fn kind_table_enforces_cap() {
    let mut registry = TargetRegistry::new();
    for raw in 0..(MAX_TARGETS_PER_KIND as u64) {
        registry.insert_node(UiNodeId::new(raw)).expect("node");
    }
    let err = registry
        .insert_node(UiNodeId::new(MAX_TARGETS_PER_KIND as u64))
        .expect_err("cap must hold");
    assert!(matches!(err, TargetError::TooManyTargets { .. }));
}
