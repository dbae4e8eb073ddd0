use bitty_ui::beacon_dispatch::{BeaconDispatcher, DispatchError};
use bitty_ui::beacon_layer::BeaconAnnotationLayer;
use bitty_ui::beacon_target::{LinkId, TargetRef, TargetRegistry};
use bitty_ui::geometry::{Point, Rect};
use bitty_ui::panel::PanelId;
use bitty_ui::panel_command::{CommandRegistry, QualifiedCommand};

fn command(raw: &str) -> QualifiedCommand {
    QualifiedCommand::parse(raw).expect("command parses")
}

fn layer_two(registry: &mut TargetRegistry) -> BeaconAnnotationLayer {
    let first = registry.insert_link(LinkId::new(1)).expect("link");
    let second = registry.insert_panel(PanelId::new(2)).expect("panel");
    BeaconAnnotationLayer::build(
        &[TargetRef::Link(first), TargetRef::Panel(second)],
        &["a".to_string(), "g".to_string()],
        &[Point::new(1, 0), Point::new(70, 0)],
        Rect::new(0, 0, 80, 24),
    )
    .expect("layer")
}

#[test]
fn dispatch_returns_typed_command_id() {
    let mut registry = TargetRegistry::new();
    let layer = layer_two(&mut registry);
    let mut dispatcher = BeaconDispatcher::new();
    assert!(dispatcher.is_empty());
    dispatcher
        .bind_layer(
            &layer,
            &[
                command("bitty.workspace:focus-panel"),
                command("bitty.links:open-link"),
            ],
        )
        .expect("bind");
    assert_eq!(dispatcher.len(), 2);
    assert_eq!(
        dispatcher
            .dispatch("a", &registry)
            .expect("dispatch")
            .as_str(),
        "bitty.workspace:focus-panel"
    );
    assert_eq!(
        dispatcher
            .dispatch("g", &registry)
            .expect("dispatch")
            .as_str(),
        "bitty.links:open-link"
    );
}

#[test]
fn unknown_label_fails_closed() {
    let mut registry = TargetRegistry::new();
    let layer = layer_two(&mut registry);
    let mut dispatcher = BeaconDispatcher::new();
    dispatcher
        .bind_layer(
            &layer,
            &[
                command("bitty.workspace:focus-panel"),
                command("bitty.links:open-link"),
            ],
        )
        .expect("bind");
    assert!(matches!(
        dispatcher.dispatch("zz", &registry),
        Err(DispatchError::UnknownLabel(_))
    ));
    assert!(matches!(
        dispatcher.dispatch("", &registry),
        Err(DispatchError::UnknownLabel(_))
    ));
}

#[test]
fn stale_target_fails_closed_despite_valid_label() {
    let mut registry = TargetRegistry::new();
    let layer = layer_two(&mut registry);
    let mut dispatcher = BeaconDispatcher::new();
    dispatcher
        .bind_layer(
            &layer,
            &[
                command("bitty.workspace:focus-panel"),
                command("bitty.links:open-link"),
            ],
        )
        .expect("bind");
    assert!(registry.retire_link(LinkId::new(1)));
    assert!(matches!(
        dispatcher.dispatch("a", &registry),
        Err(DispatchError::StaleTarget(_))
    ));
    assert!(dispatcher.dispatch("g", &registry).is_ok());
}

#[test]
fn dispatch_executes_nothing_and_mutates_nothing() {
    let mut registry = TargetRegistry::new();
    let layer = layer_two(&mut registry);
    let mut dispatcher = BeaconDispatcher::new();
    dispatcher
        .bind_layer(
            &layer,
            &[
                command("bitty.workspace:focus-panel"),
                command("bitty.links:open-link"),
            ],
        )
        .expect("bind");
    let before = registry.len();
    let annotation = layer.annotation_for_label("a").expect("label");
    let resolved = registry.resolve(&annotation.target).expect("live");
    assert_eq!(resolved, annotation.target);
    let mut commands = CommandRegistry::new();
    commands
        .register(PanelId::new(2), "bitty.links:open-link")
        .expect("register");
    let id = dispatcher.dispatch("g", &registry).expect("dispatch");
    assert_eq!(commands.owner_of(id.as_str()), Some(PanelId::new(2)));
    assert_eq!(registry.len(), before);
}

#[test]
fn length_mismatch_rejected() {
    let mut registry = TargetRegistry::new();
    let layer = layer_two(&mut registry);
    let mut dispatcher = BeaconDispatcher::new();
    assert!(matches!(
        dispatcher.bind_layer(&layer, &[command("bitty.workspace:focus-panel")]),
        Err(DispatchError::UnknownLabel(_))
    ));
    assert!(dispatcher.is_empty());
}
