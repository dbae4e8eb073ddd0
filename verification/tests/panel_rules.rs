use bitty_ui::geometry::Size;
use bitty_ui::panel::{PanelId, PanelType};
use bitty_ui::panel_rules::{
    EffectKind, MAX_PANEL_RULES, PanelRule, PanelRuleSet, RuleEffect, RuleError, RuleId,
    RuleOrigin, RuleSelector,
};
use bitty_ui::placement::Placement;
use bitty_ui::presentation::PresentationMode;
use bitty_ui::theme::TokenColor;
use bitty_ui::workspace_scene::SceneLayer;

fn set() -> PanelRuleSet {
    PanelRuleSet::new()
}

#[test]
fn origin_rank_beats_specificity() {
    let mut rules = set();
    rules
        .add(PanelRule::new(
            RuleId::new(1),
            RuleOrigin::Safety,
            RuleSelector::AnyPanel,
            RuleEffect::Presentation(PresentationMode::Tiled),
        ))
        .expect("fits");
    rules
        .add(PanelRule::new(
            RuleId::new(2),
            RuleOrigin::Workspace,
            RuleSelector::Panel(PanelId::new(9)),
            RuleEffect::Presentation(PresentationMode::Floating),
        ))
        .expect("fits");
    let winner = rules
        .resolve(
            PanelId::new(9),
            PanelType::Terminal,
            EffectKind::Presentation,
        )
        .expect("resolves")
        .expect("claimed");
    assert_eq!(winner.id(), RuleId::new(1));
}

#[test]
fn specificity_breaks_origin_ties() {
    let mut rules = set();
    rules
        .add(PanelRule::new(
            RuleId::new(1),
            RuleOrigin::User,
            RuleSelector::AnyPanel,
            RuleEffect::Placement(SceneLayer::Tiled),
        ))
        .expect("fits");
    rules
        .add(PanelRule::new(
            RuleId::new(2),
            RuleOrigin::User,
            RuleSelector::PanelType(PanelType::Browser),
            RuleEffect::Placement(SceneLayer::Floating),
        ))
        .expect("fits");
    let winner = rules
        .resolve(PanelId::new(4), PanelType::Browser, EffectKind::Placement)
        .expect("resolves")
        .expect("claimed");
    assert_eq!(winner.id(), RuleId::new(2));
    let fallback = rules
        .resolve(PanelId::new(5), PanelType::Terminal, EffectKind::Placement)
        .expect("resolves")
        .expect("claimed");
    assert_eq!(fallback.id(), RuleId::new(1));
}

#[test]
fn exact_tie_is_a_conflict_with_named_contenders() {
    let mut rules = set();
    for id in [1u64, 2] {
        rules
            .add(PanelRule::new(
                RuleId::new(id),
                RuleOrigin::User,
                RuleSelector::PanelType(PanelType::Helper),
                RuleEffect::MinSize(Size::new(20, 6)),
            ))
            .expect("fits");
    }
    let err = rules
        .resolve(PanelId::new(3), PanelType::Helper, EffectKind::MinSize)
        .expect_err("tie must fail closed");
    match err {
        RuleError::Conflict(diagnostic) => {
            assert_eq!(diagnostic.kind, EffectKind::MinSize);
            assert_eq!(diagnostic.contenders, vec![RuleId::new(1), RuleId::new(2)]);
        }
        other => panic!("expected conflict, got {other:?}"),
    }
}

#[test]
fn kinds_resolve_independently_and_empty_resolves_none() {
    let mut rules = set();
    rules
        .add(PanelRule::new(
            RuleId::new(1),
            RuleOrigin::Workspace,
            RuleSelector::AnyPanel,
            RuleEffect::Accent(TokenColor::from_rgba([0x11, 0x22, 0x33, 0xFF])),
        ))
        .expect("fits");
    assert!(
        rules
            .resolve(PanelId::new(1), PanelType::Rich, EffectKind::Placement)
            .expect("resolves")
            .is_none()
    );
    assert!(
        rules
            .resolve(PanelId::new(1), PanelType::Rich, EffectKind::Accent)
            .expect("resolves")
            .is_some()
    );
}

#[test]
fn admission_is_bounded_and_deduped() {
    let mut rules = set();
    for n in 0..MAX_PANEL_RULES {
        rules
            .add(PanelRule::new(
                RuleId::new(n as u64),
                RuleOrigin::Workspace,
                RuleSelector::AnyPanel,
                RuleEffect::Placement(SceneLayer::Tiled),
            ))
            .expect("fits");
    }
    assert!(matches!(
        rules.add(PanelRule::new(
            RuleId::new(10_000),
            RuleOrigin::User,
            RuleSelector::AnyPanel,
            RuleEffect::Placement(SceneLayer::Pinned),
        )),
        Err(RuleError::TooManyRules { .. })
    ));
    let mut small = set();
    small
        .add(PanelRule::new(
            RuleId::new(7),
            RuleOrigin::User,
            RuleSelector::AnyPanel,
            RuleEffect::Placement(SceneLayer::Tiled),
        ))
        .expect("fits");
    assert_eq!(
        small.add(PanelRule::new(
            RuleId::new(7),
            RuleOrigin::Safety,
            RuleSelector::AnyPanel,
            RuleEffect::Placement(SceneLayer::Pinned),
        )),
        Err(RuleError::DuplicateRule { id: RuleId::new(7) })
    );
}
