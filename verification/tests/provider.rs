use bitty_ui::float32::Float32;
use bitty_ui::float64::Float64;
use bitty_ui::geometry::{Rect, SplitAxis};
use bitty_ui::layout::LayoutNode;
use bitty_ui::provider::{
    DWINDLE_PROVIDER_ID, LayoutError, LayoutProvider, LogicalRect, MAX_PROVIDER_NAME_LEN,
    ProviderId, ProviderName, WorkspaceSnapshot, validate_proposal,
};
use bitty_ui::provider_registry::ProviderRegistry;
use bitty_ui::tilers::{DwindleProvider, GridProvider, MasterProvider, NoopTiler, chain};
use bitty_ui::view::{LeafView, ViewId};

fn single(value: f32) -> Float32 {
    Float32::from_bits(value.to_bits())
}

fn double(value: f64) -> Float64 {
    Float64::from_bits(value.to_bits())
}

#[derive(Debug)]
struct ThirdParty {
    name: ProviderName,
}

impl LayoutProvider for ThirdParty {
    fn id(&self) -> ProviderId {
        ProviderId::new(100)
    }
    fn name(&self) -> &ProviderName {
        &self.name
    }
    fn propose(
        &self,
        workspace: &WorkspaceSnapshot,
        views: &[ViewId],
        _area: LogicalRect,
    ) -> Result<LayoutNode, LayoutError> {
        Ok(chain(SplitAxis::Horizontal, views, workspace))
    }
}

#[derive(Debug)]
struct Impostor {
    name: ProviderName,
    id: ProviderId,
}

impl LayoutProvider for Impostor {
    fn id(&self) -> ProviderId {
        self.id
    }
    fn name(&self) -> &ProviderName {
        &self.name
    }
    fn propose(
        &self,
        _workspace: &WorkspaceSnapshot,
        _views: &[ViewId],
        _area: LogicalRect,
    ) -> Result<LayoutNode, LayoutError> {
        Err(LayoutError::EmptyViewSet)
    }
}

fn view_ids(n: u64) -> Vec<ViewId> {
    (1..=n).map(ViewId::new).collect()
}

fn snapshot(n: u64) -> WorkspaceSnapshot {
    let views = view_ids(n);
    let current = if n == 0 {
        LayoutNode::stack(Vec::new())
    } else {
        chain(
            SplitAxis::Horizontal,
            &views,
            &WorkspaceSnapshot::new(views.clone(), LayoutNode::stack(Vec::new())),
        )
    };
    WorkspaceSnapshot::new(views, current)
}

fn area() -> LogicalRect {
    LogicalRect::new(double(0.0), double(0.0), double(120.0), double(40.0))
}

#[test]
fn bare_and_reserved_names_parse() {
    assert!(ProviderName::parse("dwindle").unwrap().is_canonical());
    assert!(ProviderName::parse("master").unwrap().is_canonical());
    assert!(ProviderName::parse("grid").unwrap().is_canonical());
    let custom = ProviderName::parse("spiral").unwrap();
    assert!(!custom.is_canonical());
    assert_eq!(custom.as_str(), "spiral");
}

#[test]
fn qualified_names_parse() {
    let name = ProviderName::parse("acme.tiling:spiral").unwrap();
    assert!(!name.is_canonical());
    assert_eq!(name.as_str(), "acme.tiling:spiral");
}

#[test]
fn malformed_names_fail() {
    for bad in [
        "",
        "Dwindle",
        "dwindle!",
        "has space",
        "owner:algo",
        ":algo",
        "owner:",
        "a:b:c",
        "owner.name:",
        ".name:algo",
    ] {
        assert!(ProviderName::parse(bad).is_err(), "must reject '{bad}'");
    }
    let long = "a".repeat(MAX_PROVIDER_NAME_LEN + 1);
    assert!(ProviderName::parse(&long).is_err());
    assert!(ProviderName::parse(&"a".repeat(MAX_PROVIDER_NAME_LEN)).is_ok());
}

#[test]
fn valid_tree_passes() {
    let snap = snapshot(3);
    let tree = DwindleProvider::new()
        .propose(&snap, &snap.views.clone(), area())
        .unwrap();
    assert!(validate_proposal(&tree, &snap.views).is_ok());
}

#[test]
fn empty_view_set_fails() {
    let tree = LayoutNode::leaf(LeafView::new(ViewId::new(1), 1, 1));
    assert_eq!(
        validate_proposal(&tree, &[]),
        Err(LayoutError::EmptyViewSet)
    );
}

#[test]
fn duplicate_missing_and_unexpected_views_fail() {
    let views = view_ids(2);
    let dup = LayoutNode::split(
        SplitAxis::Horizontal,
        single(0.5),
        LayoutNode::leaf(LeafView::new(views[0], 1, 1)),
        LayoutNode::leaf(LeafView::new(views[0], 1, 1)),
    );
    assert_eq!(
        validate_proposal(&dup, &views),
        Err(LayoutError::DuplicateView { id: 1 })
    );
    let missing = LayoutNode::leaf(LeafView::new(views[0], 1, 1));
    assert_eq!(
        validate_proposal(&missing, &views),
        Err(LayoutError::MissingView { id: 2 })
    );
    let extra = LayoutNode::split(
        SplitAxis::Horizontal,
        single(0.5),
        LayoutNode::leaf(LeafView::new(views[0], 1, 1)),
        LayoutNode::split(
            SplitAxis::Vertical,
            single(0.5),
            LayoutNode::leaf(LeafView::new(views[1], 1, 1)),
            LayoutNode::leaf(LeafView::new(ViewId::new(9), 1, 1)),
        ),
    );
    assert_eq!(
        validate_proposal(&extra, &views),
        Err(LayoutError::UnexpectedView { id: 9 })
    );
}

#[test]
fn out_of_range_ratio_is_rejected_not_clamped() {
    let views = view_ids(2);
    for bad in [0.09, 0.91, f32::INFINITY, f32::NEG_INFINITY] {
        let tree = LayoutNode::Split {
            axis: SplitAxis::Horizontal,
            ratio: single(bad),
            first: Box::new(LayoutNode::leaf(LeafView::new(views[0], 1, 1))),
            second: Box::new(LayoutNode::leaf(LeafView::new(views[1], 1, 1))),
        };
        assert_eq!(
            validate_proposal(&tree, &views),
            Err(LayoutError::RatioOutOfBounds { ratio: single(bad) }),
            "ratio {bad} must be rejected"
        );
    }
    let nan_tree = LayoutNode::Split {
        axis: SplitAxis::Horizontal,
        ratio: single(f32::NAN),
        first: Box::new(LayoutNode::leaf(LeafView::new(views[0], 1, 1))),
        second: Box::new(LayoutNode::leaf(LeafView::new(views[1], 1, 1))),
    };
    assert!(
        matches!(
            validate_proposal(&nan_tree, &views),
            Err(LayoutError::RatioOutOfBounds { .. })
        ),
        "NaN ratio must be rejected"
    );
    for ok in [0.1, 0.9] {
        let tree = LayoutNode::split(
            SplitAxis::Horizontal,
            single(ok),
            LayoutNode::leaf(LeafView::new(views[0], 1, 1)),
            LayoutNode::leaf(LeafView::new(views[1], 1, 1)),
        );
        assert!(validate_proposal(&tree, &views).is_ok());
    }
}

#[test]
fn stack_and_overlay_proposals_fail() {
    let views = view_ids(2);
    let stack = LayoutNode::stack(vec![
        LayoutNode::leaf(LeafView::new(views[0], 1, 1)),
        LayoutNode::leaf(LeafView::new(views[1], 1, 1)),
    ]);
    assert_eq!(
        validate_proposal(&stack, &views),
        Err(LayoutError::UnsupportedNode { kind: "Stack" })
    );
    let overlay = LayoutNode::overlay(
        LayoutNode::leaf(LeafView::new(views[0], 1, 1)),
        LayoutNode::leaf(LeafView::new(views[1], 1, 1)),
        Rect::new(0, 0, 5, 5),
    );
    assert_eq!(
        validate_proposal(&overlay, &views),
        Err(LayoutError::UnsupportedNode { kind: "Overlay" })
    );
}

#[test]
fn noop_preserves_current_tree_without_capability() {
    let registry = ProviderRegistry::with_canonical();
    assert!(registry.resolve("noop").is_some());
    let snap = snapshot(3);
    let tree = registry
        .require("noop")
        .unwrap()
        .propose(&snap, &snap.views.clone(), area())
        .unwrap();
    assert_eq!(tree, snap.current);
}

#[test]
fn canonical_providers_cover_1_to_16_views() {
    let providers: Vec<Box<dyn LayoutProvider>> = vec![
        Box::new(DwindleProvider::new()),
        Box::new(MasterProvider::new()),
        Box::new(GridProvider::new()),
    ];
    for provider in &providers {
        for n in 1..=16 {
            let snap = snapshot(n);
            let views = snap.views.clone();
            let first = provider.propose(&snap, &views, area()).unwrap();
            assert!(
                validate_proposal(&first, &views).is_ok(),
                "{} must validate for {n} views",
                provider.name().as_str()
            );
            let second = provider.propose(&snap, &views, area()).unwrap();
            assert_eq!(first, second);
            let mut leaves = first.leaf_ids();
            leaves.sort_unstable();
            let mut expected = views.clone();
            expected.sort_unstable();
            assert_eq!(leaves, expected);
        }
    }
}

#[test]
fn empty_views_fail_on_every_provider() {
    let snap = snapshot(0);
    let providers: Vec<Box<dyn LayoutProvider>> = vec![
        Box::new(NoopTiler::new()),
        Box::new(DwindleProvider::new()),
        Box::new(MasterProvider::new()),
        Box::new(GridProvider::new()),
    ];
    for provider in &providers {
        assert_eq!(
            provider.propose(&snap, &[], area()),
            Err(LayoutError::EmptyViewSet),
            "{} must reject empty views",
            provider.name().as_str()
        );
    }
}

#[test]
fn dwindle_spirals_with_alternating_axes() {
    let snap = snapshot(3);
    let views = snap.views.clone();
    let tree = DwindleProvider::new()
        .propose(&snap, &views, LogicalRect::new(double(0.0), double(0.0), double(80.0), double(80.0)))
        .unwrap();
    let LayoutNode::Split {
        axis: outer,
        first,
        second,
        ..
    } = &tree
    else {
        panic!("dwindle of 3 must split");
    };
    assert_eq!(*outer, SplitAxis::Horizontal);
    assert_eq!(first.leaf_ids(), vec![views[0]]);
    let LayoutNode::Split { axis: inner, .. } = second.as_ref() else {
        panic!("dwindle remainder must split");
    };
    assert_eq!(*inner, SplitAxis::Vertical);
    let tall = DwindleProvider::new()
        .propose(&snap, &views, LogicalRect::new(double(0.0), double(0.0), double(24.0), double(80.0)))
        .unwrap();
    let LayoutNode::Split {
        axis: tall_outer, ..
    } = &tall
    else {
        panic!("dwindle of 3 must split");
    };
    assert_eq!(*tall_outer, SplitAxis::Vertical);
}

#[test]
fn master_pins_first_view_left() {
    let snap = snapshot(4);
    let views = snap.views.clone();
    let tree = MasterProvider::new()
        .propose(&snap, &views, area())
        .unwrap();
    let LayoutNode::Split {
        axis,
        first,
        second,
        ratio,
    } = &tree
    else {
        panic!("master of 4 must split");
    };
    assert_eq!(*axis, SplitAxis::Horizontal);
    assert_eq!(*ratio, single(0.5));
    assert_eq!(first.leaf_ids(), vec![views[0]]);
    assert_eq!(second.leaf_ids(), views[1..]);
    let solo = snapshot(1);
    let one = MasterProvider::new()
        .propose(&solo, &solo.views.clone(), area())
        .unwrap();
    assert!(one.is_leaf());
}

#[test]
fn grid_balances_rows() {
    let snap = snapshot(5);
    let views = snap.views.clone();
    let tree = GridProvider::new().propose(&snap, &views, area()).unwrap();
    let LayoutNode::Split {
        axis,
        first,
        second,
        ..
    } = &tree
    else {
        panic!("grid of 5 must split rows");
    };
    assert_eq!(*axis, SplitAxis::Vertical);
    assert_eq!(first.leaf_count(), 3);
    assert_eq!(second.leaf_count(), 2);
    assert!(validate_proposal(&tree, &views).is_ok());
    let four = snapshot(4);
    let square = GridProvider::new()
        .propose(&four, &four.views.clone(), area())
        .unwrap();
    assert!(validate_proposal(&square, &four.views).is_ok());
    assert_eq!(square.leaf_count(), 4);
}

#[test]
fn registration_requires_capability_except_noop() {
    let mut registry = ProviderRegistry::new();
    assert!(registry.register(Box::new(NoopTiler::new()), false).is_ok());
    let denied = registry.register(
        Box::new(ThirdParty {
            name: ProviderName::parse("acme.tiling:spiral").unwrap(),
        }),
        false,
    );
    assert_eq!(
        denied,
        Err(LayoutError::CapabilityDenied {
            name: "acme.tiling:spiral".to_string()
        })
    );
    assert!(
        registry
            .register(
                Box::new(ThirdParty {
                    name: ProviderName::parse("acme.tiling:spiral").unwrap(),
                }),
                true
            )
            .is_ok()
    );
    assert!(registry.resolve("acme.tiling:spiral").is_some());
}

#[test]
fn borrowing_the_noop_name_needs_the_capability() {
    let mut registry = ProviderRegistry::new();
    let impostor = || {
        Box::new(Impostor {
            name: ProviderName::parse("noop").unwrap(),
            id: ProviderId::new(50),
        })
    };
    assert_eq!(
        registry.register(impostor(), false),
        Err(LayoutError::CapabilityDenied { name: "noop".to_string() })
    );
    assert!(registry.is_empty());
    assert!(registry.register(impostor(), true).is_ok());
    assert_eq!(
        registry.register(Box::new(NoopTiler::new()), false),
        Err(LayoutError::DuplicateName { name: "noop".to_string() })
    );
}

#[test]
fn nodes_are_checked_before_ratios() {
    let views = view_ids(2);
    let leaf = |i: usize| Box::new(LayoutNode::leaf(LeafView::new(views[i], 1, 1)));
    let odd = LayoutNode::Split {
        axis: SplitAxis::Horizontal,
        ratio: single(0.95),
        first: leaf(0),
        second: Box::new(LayoutNode::stack(vec![*leaf(1)])),
    };
    assert_eq!(
        validate_proposal(&odd, &views),
        Err(LayoutError::UnsupportedNode { kind: "Stack" })
    );
    let steep = LayoutNode::Split {
        axis: SplitAxis::Horizontal,
        ratio: single(0.5),
        first: leaf(0),
        second: Box::new(LayoutNode::Split {
            axis: SplitAxis::Vertical,
            ratio: single(0.05),
            first: leaf(1),
            second: leaf(0),
        }),
    };
    assert_eq!(
        validate_proposal(&steep, &views),
        Err(LayoutError::RatioOutOfBounds { ratio: single(0.05) })
    );
}

#[test]
fn reserved_and_duplicate_registrations_fail() {
    let mut registry = ProviderRegistry::with_canonical();
    assert_eq!(
        registry.register(
            Box::new(Impostor {
                name: ProviderName::parse("dwindle").unwrap(),
                id: ProviderId::new(50),
            }),
            true
        ),
        Err(LayoutError::ReservedName {
            name: "dwindle".to_string()
        })
    );
    assert_eq!(
        registry.register(Box::new(NoopTiler::new()), false),
        Err(LayoutError::DuplicateName {
            name: "noop".to_string()
        })
    );
    assert_eq!(
        registry.register(
            Box::new(Impostor {
                name: ProviderName::parse("acme.tiling:other").unwrap(),
                id: ProviderId::new(DWINDLE_PROVIDER_ID),
            }),
            true
        ),
        Err(LayoutError::DuplicateId { id: 1 })
    );
}

#[test]
fn unknown_and_malformed_names_fail_require() {
    let registry = ProviderRegistry::with_canonical();
    assert_eq!(
        registry
            .require("acme.tiling:ghost")
            .err()
            .expect("unregistered name must fail"),
        LayoutError::UnknownProvider {
            name: "acme.tiling:ghost".to_string()
        }
    );
    assert!(matches!(
        registry.require("Has Space"),
        Err(LayoutError::InvalidName { .. })
    ));
    assert_eq!(
        registry.names(),
        vec![
            "noop".to_string(),
            "dwindle".to_string(),
            "master".to_string(),
            "grid".to_string(),
        ]
    );
}
