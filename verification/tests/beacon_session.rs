use bitty_ui::beacon_dispatch::{BeaconDispatcher, DispatchError};
use bitty_ui::beacon_label::{LabelAllocator, LabelError, LabelPolicy};
use bitty_ui::beacon_layer::BeaconAnnotationLayer;
use bitty_ui::beacon_provider::{
    CommandBlockProvider, DerivedProvider, ProviderError, ProviderMediator, ProviderTarget,
    ProviderTier, TargetProvider,
};
use bitty_ui::beacon_target::{
    CommandBlockId, LinkId, PanelRef, TargetError, TargetRef, TargetRegistry, UiNodeId, WorkspaceId,
    MAX_TARGETS_PER_KIND,
};
use bitty_ui::geometry::{Point, Rect};
use bitty_ui::panel::PanelId;
use bitty_ui::panel_command::QualifiedCommand;

struct Plugin {
    name: String,
    links: Vec<u64>,
}

impl TargetProvider for Plugin {
    fn tier(&self) -> ProviderTier {
        ProviderTier::Plugin
    }

    fn name(&self) -> &str {
        &self.name
    }

    fn collect(&self) -> Vec<ProviderTarget> {
        self.links
            .iter()
            .map(|raw| ProviderTarget::Link(LinkId::new(*raw)))
            .collect()
    }
}

fn plugin(name: &str, links: &[u64]) -> Box<Plugin> {
    Box::new(Plugin { name: name.to_string(), links: links.to_vec() })
}

fn policy(home: &str, overflow: &str) -> LabelAllocator {
    LabelAllocator::new(LabelPolicy::new(home, overflow).expect("policy"))
}

#[test]
fn charset_faults_name_the_set() {
    let cases = [
        ("", "a", "home charset is empty"),
        ("aB", "a", "home charset must be [a-z0-9]"),
        ("aba", "a", "home charset has duplicate 'a'"),
        ("a", "", "overflow charset is empty"),
        ("a", "xyzx", "overflow charset has duplicate 'x'"),
    ];
    for (home, overflow, want) in cases {
        assert_eq!(
            LabelPolicy::new(home, overflow),
            Err(LabelError::InvalidCharset(want.to_string()))
        );
    }
    assert_eq!(
        LabelPolicy::new(&"a".repeat(65), "a"),
        Err(LabelError::InvalidCharset("home charset exceeds 64 chars".to_string()))
    );
}

#[test]
fn pools_halve_the_home_row() {
    let five = LabelPolicy::new("abcde", "x").expect("policy");
    assert_eq!(five.left_pool(), ['a', 'b']);
    assert_eq!(five.right_pool(), ['c', 'd', 'e']);
    let one = LabelPolicy::new("a", "x").expect("policy");
    assert_eq!(one.left_pool(), ['a']);
    assert_eq!(one.right_pool(), ['a']);
    assert_eq!(LabelAllocator::default().capacity(), 9 + 9 * 9);
}

#[test]
fn rows_then_columns_are_served() {
    let allocator = policy("abcd", "xy");
    let anchors = [Point::new(3, 5), Point::new(9, 1), Point::new(2, 5), Point::new(2, 5)];
    let labels = allocator.assign(&anchors, 100).expect("labels");
    assert_eq!(labels, vec!["ay", "a", "b", "ax"]);
    assert_eq!(
        allocator.assign(&[Point::new(0, 0); 7], 100),
        Err(LabelError::TooManyTargets { requested: 7, capacity: 6 })
    );
    assert_eq!(
        allocator.assign(&vec![Point::new(0, 0); 1025], 100),
        Err(LabelError::TooManyTargets { requested: 1025, capacity: 12 })
    );
}

#[test]
fn a_single_character_serves_both_hands() {
    let allocator = policy("a", "b");
    let one_side = [Point::new(1, 0), Point::new(1, 1)];
    assert_eq!(allocator.assign(&one_side, 80).expect("labels"), vec!["a", "ab"]);
    let both = [Point::new(1, 0), Point::new(70, 0)];
    assert_eq!(allocator.assign(&both, 80).expect("labels"), vec!["a", "ab"]);
    let swapped = [Point::new(70, 0), Point::new(1, 9)];
    assert_eq!(allocator.assign(&swapped, 80).expect("labels"), vec!["ab", "a"]);
    assert_eq!(
        allocator.assign(&[Point::new(1, 0), Point::new(70, 0), Point::new(71, 0)], 80),
        Err(LabelError::TooManyTargets { requested: 3, capacity: 2 })
    );
    let wide = policy("a", "xyz");
    let four = [Point::new(70, 1), Point::new(1, 1), Point::new(70, 0), Point::new(1, 0)];
    assert_eq!(wide.assign(&four, 80).expect("labels"), vec!["az", "ax", "ay", "a"]);
}

#[test]
fn labels_of_a_session_are_distinct() {
    for (home, overflow) in [("a", "bcdefg"), ("ab", "xyz"), ("abc", "abc")] {
        let allocator = policy(home, overflow);
        let anchors: Vec<Point> =
            (0..6u16).map(|i| Point::new(if i % 2 == 0 { 3 } else { 60 }, i / 2)).collect();
        let labels = allocator.assign(&anchors, 80).expect("labels");
        for i in 0..labels.len() {
            assert!(labels[i].len() == 1 || labels[i].len() == 2);
            for j in 0..i {
                assert_ne!(labels[i], labels[j]);
            }
        }
    }
}

#[test]
fn a_labelled_session_dispatches_every_label() {
    let mut registry = TargetRegistry::new();
    let mut targets = Vec::new();
    let mut anchors = Vec::new();
    let mut commands = Vec::new();
    for i in 0..20u64 {
        let link = registry.insert_link(LinkId::new(i)).expect("link");
        targets.push(TargetRef::Link(link));
        anchors.push(Point::new(if i % 2 == 0 { 1 } else { 70 }, i as u16));
        commands.push(QualifiedCommand::parse(&format!("bitty.links:open{i}")).expect("command"));
    }
    let labels = LabelAllocator::default().assign(&anchors, 80).expect("labels");
    let layer =
        BeaconAnnotationLayer::build(&targets, &labels, &anchors, Rect::new(0, 0, 80, 24))
            .expect("layer");
    let mut dispatcher = BeaconDispatcher::new();
    dispatcher.bind_layer(&layer, &commands).expect("bind");
    for i in 0..20 {
        let hint = layer.annotation_for_label(&labels[i]).expect("hint");
        assert_eq!(hint.target, targets[i]);
        assert_eq!(hint.anchor, anchors[i]);
        let command = dispatcher.dispatch(&labels[i], &registry).expect("dispatch");
        assert_eq!(command.as_str(), format!("bitty.links:open{i}"));
    }
    assert!(registry.retire_link(LinkId::new(3)));
    assert!(matches!(
        dispatcher.dispatch(&labels[3], &registry),
        Err(DispatchError::StaleTarget(_))
    ));
}

#[test]
fn a_label_stands_for_its_last_hint() {
    let mut registry = TargetRegistry::new();
    let first = registry.insert_link(LinkId::new(1)).expect("link");
    let second = registry.insert_link(LinkId::new(2)).expect("link");
    let layer = BeaconAnnotationLayer::build(
        &[TargetRef::Link(first), TargetRef::Link(second)],
        &["a".to_string(), "a".to_string()],
        &[Point::new(1, 0), Point::new(70, 0)],
        Rect::new(0, 0, 80, 24),
    )
    .expect("layer");
    let commands = [
        QualifiedCommand::parse("bitty.links:one").expect("command"),
        QualifiedCommand::parse("bitty.links:two").expect("command"),
    ];
    let mut dispatcher = BeaconDispatcher::new();
    dispatcher.bind_layer(&layer, &commands).expect("bind");
    assert_eq!(dispatcher.len(), 1);
    assert_eq!(
        dispatcher.dispatch("a", &registry).expect("dispatch").as_str(),
        "bitty.links:two"
    );
}

#[test]
fn target_faults_become_dispatch_faults() {
    assert_eq!(
        DispatchError::from(TargetError::StaleTarget("x".to_string())),
        DispatchError::StaleTarget("x".to_string())
    );
}

#[test]
fn registering_leaves_other_surfaces_alone() {
    let mut registry = TargetRegistry::new();
    let panel = registry.insert_panel(PanelId::new(1)).expect("panel");
    let workspace = registry.insert_workspace(WorkspaceId::new(1)).expect("workspace");
    let node = registry.insert_node(UiNodeId::new(1)).expect("node");
    let again = registry.insert_panel(PanelId::new(1)).expect("panel");
    assert_eq!(registry.len(), 3);
    assert!(again.generation > panel.generation);
    assert!(registry.resolve(&TargetRef::Panel(again)).is_ok());
    assert!(registry.resolve(&TargetRef::Workspace(workspace)).is_ok());
    assert!(registry.resolve(&TargetRef::UiNode(node)).is_ok());
    assert_eq!(
        registry.resolve(&TargetRef::Panel(panel)),
        Err(TargetError::StaleTarget(TargetRef::Panel(panel).text()))
    );
    assert!(registry.retire_node(UiNodeId::new(1)));
    assert!(!registry.retire_node(UiNodeId::new(1)));
    assert!(!registry.retire_workspace(WorkspaceId::new(2)));
    assert!(registry.resolve(&TargetRef::UiNode(node)).is_err());
    assert_eq!(registry.len(), 2);
}

#[test]
fn a_handle_is_current_until_its_surface_changes() {
    let mut registry = TargetRegistry::new();
    let first = TargetRef::Link(registry.insert_link(LinkId::new(1)).expect("link"));
    registry.insert_link(LinkId::new(2)).expect("link");
    registry.insert_panel(PanelId::new(1)).expect("panel");
    registry.retire_panel(PanelId::new(1));
    assert_eq!(registry.resolve(&first), Ok(first));
    registry.retire_link(LinkId::new(1));
    assert!(matches!(registry.resolve(&first), Err(TargetError::StaleTarget(_))));
    let again = TargetRef::Link(registry.insert_link(LinkId::new(1)).expect("link"));
    assert!(matches!(registry.resolve(&first), Err(TargetError::StaleTarget(_))));
    assert_eq!(registry.resolve(&again), Ok(again));
    let foreign = TargetRef::Panel(PanelRef {
        id: PanelId::new(77),
        generation: 0,
    });
    assert!(matches!(registry.resolve(&foreign), Err(TargetError::UnknownTarget(_))));
}

#[test]
fn tiers_are_gathered_in_order() {
    let mut mediator = ProviderMediator::new();
    let derived = DerivedProvider::new(
        "session.recent",
        vec![ProviderTarget::Panel(PanelId::new(8))],
    )
    .expect("provider");
    mediator.register(Box::new(derived), true).expect("derived");
    mediator.register(plugin("acme.links", &[5, 6]), true).expect("plugin");
    mediator
        .register(Box::new(CommandBlockProvider::new(vec![CommandBlockId::new(1)])), true)
        .expect("core");
    assert_eq!(mediator.names(), vec!["session.recent", "acme.links", "terminal"]);
    assert_eq!(mediator.require("acme.links").expect("known").name(), "acme.links");
    assert!(mediator.resolve("nobody").is_none());
    let mut registry = TargetRegistry::new();
    let snapshot = mediator.collect(&mut registry).expect("snapshot");
    let tiers: Vec<ProviderTier> = snapshot.entries().iter().map(|e| e.tier()).collect();
    assert_eq!(
        tiers,
        vec![
            ProviderTier::Core,
            ProviderTier::Plugin,
            ProviderTier::Plugin,
            ProviderTier::Derived,
        ]
    );
    assert_eq!(
        snapshot.offered(),
        vec![
            ProviderTarget::CommandBlock(CommandBlockId::new(1)),
            ProviderTarget::Link(LinkId::new(5)),
            ProviderTarget::Link(LinkId::new(6)),
            ProviderTarget::Panel(PanelId::new(8)),
        ]
    );
    assert_eq!(snapshot.targets_of_tier(ProviderTier::Plugin).len(), 2);
    assert_eq!(snapshot.entries()[3].provider(), "session.recent");
    assert_eq!(snapshot.resolve_all(&registry).expect("fresh"), snapshot.targets());

    let later = mediator.collect(&mut registry).expect("snapshot");
    assert!(later.resolve_all(&registry).is_ok());
    assert_eq!(
        snapshot.resolve_all(&registry),
        Err(ProviderError::StaleSnapshot(format!(
            "stale beacon target: {}",
            snapshot.targets()[0].text()
        )))
    );
}

#[test]
fn providers_are_refused_with_a_reason() {
    let mut mediator = ProviderMediator::new();
    assert_eq!(
        mediator.register(plugin("acme.links", &[]), false),
        Err(ProviderError::CapabilityDenied { name: "acme.links".to_string() })
    );
    assert_eq!(
        mediator.register(plugin("terminal", &[]), true),
        Err(ProviderError::ReservedName { name: "terminal".to_string() })
    );
    mediator.register(plugin("acme.links", &[]), true).expect("plugin");
    assert_eq!(
        mediator.register(plugin("acme.links", &[]), true),
        Err(ProviderError::DuplicateName { name: "acme.links".to_string() })
    );
    assert_eq!(
        mediator.require("nobody").err(),
        Some(ProviderError::UnknownProvider { name: "nobody".to_string() })
    );
    for i in 1..64 {
        mediator.register(plugin(&format!("acme.p{i}"), &[]), true).expect("plugin");
    }
    assert_eq!(
        mediator.register(plugin("acme.last", &[]), true),
        Err(ProviderError::TooManyProviders { max: 64, current: 64 })
    );
    assert_eq!(
        DerivedProvider::new("terminal", Vec::new()).err(),
        Some(ProviderError::ReservedName { name: "terminal".to_string() })
    );
}

#[test]
fn a_collection_that_does_not_fit_enters_nothing() {
    let mut registry = TargetRegistry::new();
    for i in 0..MAX_TARGETS_PER_KIND as u64 - 1 {
        registry.insert_link(LinkId::new(i)).expect("link");
    }
    let mut mediator = ProviderMediator::with_core(vec![CommandBlockId::new(1)]);
    mediator.register(plugin("acme.links", &[90_001, 90_002]), true).expect("plugin");
    let before = registry.len();
    assert!(matches!(
        mediator.collect(&mut registry),
        Err(ProviderError::TooManyTargets { .. })
    ));
    assert_eq!(registry.len(), before);
    let fresh = registry.insert_link(LinkId::new(90_001)).expect("room for one");
    assert!(registry.resolve(&TargetRef::Link(fresh)).is_ok());
}
