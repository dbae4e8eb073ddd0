use bitty_ui::beacon_target::UiNodeId;
use bitty_ui::budget::{
    tree_nodes, Admission, BudgetDimension, BudgetTier, Overrun, ResourceBudget, ResourceUsage,
};
use bitty_ui::canvas::{CanvasCommand, CanvasDisplayList, CanvasError, CanvasLayer};
use bitty_ui::float32::Float32;
use bitty_ui::geometry::Size;
use bitty_ui::motion::{MotionConfig, MotionCurve, MotionScope, MotionSpec, MotionValue};
use bitty_ui::panel::{PanelId, PanelType};
use bitty_ui::panel_rules::{
    EffectKind, PanelRule, PanelRuleSet, RuleEffect, RuleError, RuleId, RuleOrigin, RuleSelector,
};
use bitty_ui::resolved_style::{StyleCascade, StyleError, StyleOrigin};
use bitty_ui::theme::{CoreToken, TokenColor};
use bitty_ui::uitree::{UiNode, UiNodeKind};

fn single(value: f32) -> Float32 {
    Float32::from_bits(value.to_bits())
}

fn label(node: u64, text: &str) -> CanvasDisplayList {
    let mut list = CanvasDisplayList::new(UiNodeId::new(node));
    list.push(CanvasCommand::Text { x: 0, y: 0, body: text.to_string() })
        .expect("text");
    list
}

fn color(n: u8) -> TokenColor {
    TokenColor::from_rgba([n, n, n, 255])
}

fn cascade() -> StyleCascade {
    StyleCascade::new(&[
        CoreToken { name: "fg", color: color(1) },
        CoreToken { name: "bg", color: color(2) },
    ])
}

#[test]
fn drawing_one_node_leaves_the_others() {
    let mut layer = CanvasLayer::new();
    layer.submit(label(1, "one")).expect("submit");
    layer.submit(label(2, "two")).expect("submit");
    let revision = layer.revision();
    layer.submit(label(2, "two")).expect("submit");
    assert_eq!(layer.revision(), revision);
    layer.submit(label(2, "changed")).expect("submit");
    assert_eq!(layer.revision(), revision + 1);
    assert_eq!(layer.get(UiNodeId::new(1)), Some(&label(1, "one")));
    assert_eq!(layer.get(UiNodeId::new(2)), Some(&label(2, "changed")));
    assert!(!layer.remove(UiNodeId::new(9)));
    assert_eq!(layer.revision(), revision + 1);
    assert!(layer.remove(UiNodeId::new(2)));
    assert_eq!(layer.revision(), revision + 2);
    assert_eq!(layer.len(), 1);
}

#[test]
fn drawing_bounds_are_inclusive() {
    let mut list = CanvasDisplayList::new(UiNodeId::new(1));
    let text = |x: i32, n: usize| CanvasCommand::Text {
        x,
        y: -16_384,
        body: "t".repeat(n),
    };
    assert_eq!(list.push(text(16_384, 512)), Ok(()));
    assert_eq!(
        list.push(text(16_385, 1)),
        Err(CanvasError::CoordOutOfRange { value: 16_385, bound: 16_384 })
    );
    assert_eq!(
        list.push(text(0, 513)),
        Err(CanvasError::TextTooLong { len: 513, cap: 512 })
    );
    assert_eq!(list.len(), 1);
    list.clear();
    assert!(list.is_empty());
}

#[test]
fn admission_follows_the_caps() {
    let budget = ResourceBudget::new(10, 1000, 100, 5);
    let fits = ResourceUsage::new(10, 1000, 100, 5);
    assert_eq!(budget.check(fits), Ok(()));
    assert!(budget.admission(fits).is_admitted());
    let over = ResourceUsage::new(11, 1000, 100, 5);
    assert_eq!(
        budget.check(over),
        Err(Overrun { dimension: BudgetDimension::Nodes, found: 11, cap: 10 })
    );
    assert!(!budget.admission(over).is_admitted());
    assert!(matches!(
        budget.admission(ResourceUsage::new(1, 1, 101, 5)),
        Admission::Degraded(_)
    ));
}

#[test]
fn tiers_nest_and_read_back() {
    let tiers = [BudgetTier::Essential, BudgetTier::Standard, BudgetTier::Rich];
    for tier in tiers {
        assert_eq!(BudgetTier::parse(tier.as_str()), Some(tier));
    }
    assert_eq!(BudgetTier::parse("lavish"), None);
    let usage = ResourceUsage::new(100, 1 << 20, 0, 100);
    for tier in tiers {
        assert_eq!(tier.caps().check(usage), Ok(()));
    }
}

#[test]
fn demand_adds_in_any_order() {
    let a = ResourceUsage::new(usize::MAX, 1, 2, 3);
    let b = ResourceUsage::new(1, u64::MAX, 5, 6);
    let c = ResourceUsage::draws(7);
    assert_eq!(a.saturating_add(b), b.saturating_add(a));
    assert_eq!(
        a.saturating_add(b).saturating_add(c),
        a.saturating_add(b.saturating_add(c))
    );
    assert_eq!(a.saturating_add(ResourceUsage::zero()), a);
    assert_eq!(
        a.saturating_add(b),
        ResourceUsage::new(usize::MAX, u64::MAX, 7, 9)
    );
    let leaf = |n: u64| UiNode::leaf(UiNodeId::new(n), UiNodeKind::Box);
    let tree = UiNode::new(
        UiNodeId::new(1),
        UiNodeKind::Box,
        vec![leaf(2), UiNode::new(UiNodeId::new(3), UiNodeKind::Box, vec![leaf(4)])],
    );
    assert_eq!(tree_nodes(&tree), 4);
}

#[test]
fn scopes_fall_through_to_panel_then_default() {
    let spec = |ms: u16| MotionSpec::new(ms, MotionCurve::EaseOut).expect("spec");
    let plain = MotionConfig::new(spec(10));
    assert_eq!(plain.resolve(MotionScope::Close), spec(10));
    let config = plain.with_panel(spec(20)).with_close(spec(30)).with_move(spec(40));
    assert_eq!(config.resolve(MotionScope::Open), spec(20));
    assert_eq!(config.resolve(MotionScope::Close), spec(30));
    assert_eq!(config.resolve(MotionScope::Move), spec(40));
    let reduced = config.with_reduced_motion(true);
    assert!(reduced.reduced_motion());
    assert!(reduced.resolve(MotionScope::Close).is_instant());
    assert_eq!(MotionSpec::instant().duration_ms(), 0);
    assert_eq!(spec(30).curve(), MotionCurve::EaseOut);
}

#[test]
fn an_arrived_value_sleeps() {
    let spec = MotionSpec::new(100, MotionCurve::Linear).expect("spec");
    let mut value = MotionValue::new(single(0.0), spec);
    assert!(value.is_settled());
    assert!(!value.needs_wakeup());
    value.set_target(single(10.0));
    assert!(value.needs_wakeup());
    assert_eq!(value.step(single(0.5), single(0.5), single(5.0)), single(5.0));
    assert_eq!(value.current(), single(5.0));
    assert!(value.needs_wakeup());
    assert_eq!(value.step(single(1.0), single(1.0), single(10.0)), single(10.0));
    assert!(value.is_settled());
    assert!(!value.needs_wakeup());
    value.set_spec(MotionSpec::instant());
    value.set_target(single(3.0));
    assert_eq!(value.current(), single(3.0));
}

#[test]
fn the_strongest_style_claim_wins() {
    let mut styles = cascade();
    assert_eq!(styles.resolve("fg").map(|s| s.value), Some(color(1)));
    assert_eq!(
        styles.set(StyleOrigin::FrameworkDefault, "fg", color(9)),
        Err(StyleError::UnknownKey { key: "fg".to_string() })
    );
    for (i, origin) in StyleOrigin::ordered().into_iter().enumerate().skip(1) {
        styles.set(origin, "fg", color(10 + i as u8)).expect("claim");
        assert_eq!(styles.attribution("fg"), Some(origin));
    }
    assert_eq!(styles.attribution("fg"), Some(StyleOrigin::Safety));
    styles.set(StyleOrigin::ordered()[1], "fg", color(99)).expect("claim");
    assert_eq!(styles.attribution("fg"), Some(StyleOrigin::Safety));
    assert_eq!(styles.resolve("bg").map(|s| s.value), Some(color(2)));
    let all = styles.resolve_all();
    let names: Vec<&str> = all.iter().map(|(name, _)| name.as_str()).collect();
    assert_eq!(names, vec!["bg", "fg"]);
}

#[test]
fn unclaimed_tokens_keep_their_default() {
    let mut styles = cascade();
    styles.set(StyleOrigin::UserTheme, "fg", color(20)).expect("claim");
    styles.set(StyleOrigin::UserTheme, "fg", color(21)).expect("claim");
    assert!(styles.set(StyleOrigin::Safety, "terminal.fg", color(30)).is_err());
    let fg = styles.resolve("fg").expect("claimed");
    assert_eq!((fg.value, fg.origin), (color(21), StyleOrigin::UserTheme));
    let bg = styles.resolve("bg").expect("default");
    assert_eq!((bg.value, bg.origin), (color(2), StyleOrigin::FrameworkDefault));
    assert!(styles.resolve("plugin.acme.fg").is_none());
}

#[test]
fn style_keys_are_checked() {
    let mut styles = cascade();
    assert_eq!(
        styles.set(StyleOrigin::Safety, "nope", color(1)),
        Err(StyleError::UnknownKey { key: "nope".to_string() })
    );
    assert!(styles.resolve("nope").is_none());
    assert_eq!(
        styles.set(StyleOrigin::Safety, "terminal.fg", color(1)),
        Err(StyleError::TerminalKey { key: "terminal.fg".to_string() })
    );
    assert_eq!(
        styles.set(StyleOrigin::Safety, "plugin.", color(1)),
        Err(StyleError::BadPluginKey { key: "plugin.".to_string() })
    );
    assert_eq!(styles.set(StyleOrigin::Safety, "plugin.acme.fg", color(7)), Ok(()));
    assert_eq!(styles.resolve("plugin.acme.fg").map(|s| s.value), Some(color(7)));
    for origin in StyleOrigin::ordered() {
        assert_eq!(StyleOrigin::parse(origin.as_str()), Some(origin));
    }
    assert!(
        StyleOrigin::for_rule_origin(RuleOrigin::Safety).rank()
            > StyleOrigin::for_rule_origin(RuleOrigin::User).rank()
    );
}

#[test]
fn a_rule_of_higher_rank_wins() {
    let rule = |id: u64, origin: RuleOrigin, selector: RuleSelector| {
        PanelRule::new(
            RuleId::new(id),
            origin,
            selector,
            RuleEffect::MinSize(Size::new(id as u16, 1)),
        )
    };
    let panel = PanelId::new(4);
    let rules = PanelRuleSet::from_rules(vec![
        rule(1, RuleOrigin::User, RuleSelector::AnyPanel),
        rule(2, RuleOrigin::User, RuleSelector::Panel(panel)),
        rule(3, RuleOrigin::Safety, RuleSelector::AnyPanel),
    ])
    .expect("rules");
    let found = rules.resolve(panel, PanelType::Terminal, EffectKind::MinSize).expect("no tie");
    assert_eq!(found.map(|r| r.id()), Some(RuleId::new(3)));
    let mut tied = PanelRuleSet::new();
    tied.add(rule(1, RuleOrigin::User, RuleSelector::AnyPanel)).expect("add");
    tied.add(rule(2, RuleOrigin::User, RuleSelector::AnyPanel)).expect("add");
    assert!(matches!(
        tied.resolve(panel, PanelType::Terminal, EffectKind::MinSize),
        Err(RuleError::Conflict(_))
    ));
    let mut reversed = PanelRuleSet::new();
    reversed.add(rule(2, RuleOrigin::User, RuleSelector::AnyPanel)).expect("add");
    reversed.add(rule(1, RuleOrigin::User, RuleSelector::AnyPanel)).expect("add");
    assert_eq!(
        reversed.resolve(panel, PanelType::Terminal, EffectKind::MinSize),
        tied.resolve(panel, PanelType::Terminal, EffectKind::MinSize)
    );
    assert_eq!(
        tied.add(rule(2, RuleOrigin::User, RuleSelector::AnyPanel)),
        Err(RuleError::DuplicateRule { id: RuleId::new(2) })
    );
}

#[test]
fn cascades_compare_by_their_claims() {
    let mut a = cascade();
    a.set(StyleOrigin::UserTheme, "fg", color(7)).expect("claim");
    a.set(StyleOrigin::Safety, "bg", color(8)).expect("claim");
    let mut b = cascade();
    b.set(StyleOrigin::Safety, "bg", color(9)).expect("claim");
    b.set(StyleOrigin::UserTheme, "fg", color(7)).expect("claim");
    assert_ne!(a, b);
    b.set(StyleOrigin::Safety, "bg", color(8)).expect("claim");
    assert_eq!(a, b);
    b.set(StyleOrigin::UserRule, "bg", color(8)).expect("claim");
    assert_ne!(a, b);
}
