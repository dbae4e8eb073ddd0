use bitty_ui::beacon_provider::{
    CORE_TERMINAL_PROVIDER_NAME, CommandBlockProvider, MAX_SNAPSHOT_TARGETS,
    MAX_TARGET_PROVIDER_NAME_LEN, ProviderError, ProviderMediator, ProviderTarget, ProviderTier,
    TargetProvider, validate_provider_name,
};
use bitty_ui::beacon_target::{CommandBlockId, TargetRegistry};

fn blocks(n: u64) -> Vec<CommandBlockId> {
    (1..=n).map(CommandBlockId::new).collect()
}

#[test]
fn names_validate_per_tier() {
    assert!(validate_provider_name("terminal", ProviderTier::Core).is_ok());
    assert!(validate_provider_name("acme.blocks:links", ProviderTier::Plugin).is_ok());
    assert!(validate_provider_name("session.blocks", ProviderTier::Derived).is_ok());
    assert_eq!(
        validate_provider_name("terminal", ProviderTier::Plugin),
        Err(ProviderError::ReservedName {
            name: "terminal".to_string()
        })
    );
    assert_eq!(
        validate_provider_name("terminal", ProviderTier::Derived),
        Err(ProviderError::ReservedName {
            name: "terminal".to_string()
        })
    );
    for bad in ["", "Terminal", "has space", "shout!", "a/b"] {
        assert!(
            matches!(
                validate_provider_name(bad, ProviderTier::Plugin),
                Err(ProviderError::InvalidName { .. })
            ),
            "'{bad}' must be invalid"
        );
    }
    let long = "a".repeat(MAX_TARGET_PROVIDER_NAME_LEN + 1);
    assert!(validate_provider_name(&long, ProviderTier::Plugin).is_err());
    assert!(
        validate_provider_name(
            &"a".repeat(MAX_TARGET_PROVIDER_NAME_LEN),
            ProviderTier::Plugin
        )
        .is_ok()
    );
}

#[test]
fn core_trust_is_not_self_claimable() {
    let mut mediator = ProviderMediator::new();
    let denied = mediator.register(Box::new(CommandBlockProvider::new(blocks(1))), false);
    assert_eq!(
        denied,
        Err(ProviderError::CapabilityDenied {
            name: "terminal".to_string()
        })
    );
    assert!(mediator.is_empty());
    assert!(
        mediator
            .register(Box::new(CommandBlockProvider::new(blocks(1))), true)
            .is_ok()
    );
    assert_eq!(mediator.names(), vec!["terminal".to_string()]);
}

#[test]
fn terminal_provider_collects_owned_blocks_only() {
    let provider = CommandBlockProvider::new(blocks(2));
    assert_eq!(provider.tier(), ProviderTier::Core);
    assert_eq!(provider.name(), CORE_TERMINAL_PROVIDER_NAME);
    assert_eq!(provider.len(), 2);
    assert!(!provider.is_empty());
    assert_eq!(
        provider.collect(),
        vec![
            ProviderTarget::CommandBlock(CommandBlockId::new(1)),
            ProviderTarget::CommandBlock(CommandBlockId::new(2)),
        ]
    );
    assert!(CommandBlockProvider::new(Vec::new()).is_empty());
}

#[test]
fn tier_ranks_order_core_plugin_derived() {
    assert!(ProviderTier::Core.rank() < ProviderTier::Plugin.rank());
    assert!(ProviderTier::Plugin.rank() < ProviderTier::Derived.rank());
    assert!(ProviderTier::Core < ProviderTier::Plugin);
}

#[test]
fn empty_mediator_collects_empty_snapshot() {
    let mediator = ProviderMediator::new();
    assert!(mediator.is_empty());
    let mut registry = TargetRegistry::new();
    let snapshot = mediator.collect(&mut registry).expect("empty collects");
    assert!(snapshot.is_empty());
    assert_eq!(snapshot.len(), 0);
    assert_eq!(
        snapshot.resolve_all(&registry).expect("empty resolves"),
        Vec::new()
    );
    assert!(registry.is_empty());
}

#[test]
fn oversized_collection_fails_before_any_insert() {
    let wide: Vec<CommandBlockId> = (1..=MAX_SNAPSHOT_TARGETS as u64 + 1)
        .map(CommandBlockId::new)
        .collect();
    let mediator = ProviderMediator::with_core(wide);
    let mut registry = TargetRegistry::new();
    let err = mediator.collect(&mut registry).expect_err("cap must hold");
    assert_eq!(
        err,
        ProviderError::TooManyTargets {
            max: MAX_SNAPSHOT_TARGETS,
            current: MAX_SNAPSHOT_TARGETS + 1,
        }
    );
    assert!(registry.is_empty());
}
