use bitty_ui::beacon_target::UiNodeId;
use bitty_ui::budget::{
    Admission, BudgetDimension, BudgetTier, Overrun, ResourceBudget, ResourceUsage, tree_nodes,
};
use bitty_ui::uitree::{UiNode, UiNodeKind};

fn budget() -> ResourceBudget {
    BudgetTier::Standard.caps()
}

#[test]
fn tier_spellings_round_trip() {
    for tier in [
        BudgetTier::Essential,
        BudgetTier::Standard,
        BudgetTier::Rich,
    ] {
        assert_eq!(BudgetTier::parse(tier.as_str()), Some(tier));
    }
    assert_eq!(BudgetTier::parse("EXTRA"), None);
    assert_eq!(BudgetTier::parse(""), None);
    assert_eq!(BudgetTier::default(), BudgetTier::Standard);
}

#[test]
fn tiers_order_essential_below_standard_below_rich() {
    let caps = [
        BudgetTier::Essential.caps(),
        BudgetTier::Standard.caps(),
        BudgetTier::Rich.caps(),
    ];
    assert!(caps[0].max_nodes < caps[1].max_nodes);
    assert!(caps[1].max_nodes < caps[2].max_nodes);
    assert!(caps[0].max_texture_bytes < caps[1].max_texture_bytes);
    assert!(caps[1].max_texture_bytes < caps[2].max_texture_bytes);
    assert_eq!(caps[0].max_blur_area_px, 0);
}

#[test]
fn inside_budget_is_accepted() {
    let usage = ResourceUsage::new(64, 1024, 1024, 32);
    assert_eq!(budget().admission(usage), Admission::Accepted);
    budget().check(usage).expect("inside every cap");
}

#[test]
fn blur_only_overuse_degrades_to_cap() {
    let over = budget().max_blur_area_px.saturating_add(1);
    let usage = ResourceUsage::new(8, 0, over, 4);
    let admitted = budget().admission(usage);
    let expected = ResourceUsage::new(8, 0, budget().max_blur_area_px, 4);
    assert_eq!(admitted, Admission::Degraded(expected));
    assert!(admitted.is_admitted());
}

#[test]
fn draw_only_overuse_degrades_to_cap() {
    let usage = ResourceUsage::new(8, 0, 0, budget().max_draw_calls.saturating_add(10));
    let admitted = budget().admission(usage);
    let expected = ResourceUsage::new(8, 0, 0, budget().max_draw_calls);
    assert_eq!(admitted, Admission::Degraded(expected));
}

#[test]
fn node_overuse_refuses_fail_closed() {
    let usage = ResourceUsage::new(
        budget().max_nodes.saturating_add(1),
        0,
        budget().max_blur_area_px.saturating_add(1),
        0,
    );
    let admitted = budget().admission(usage);
    match admitted {
        Admission::Refused(overruns) => {
            assert_eq!(overruns.len(), 1);
            assert_eq!(overruns[0].dimension, BudgetDimension::Nodes);
        }
        other => panic!("node overuse must refuse, got {other:?}"),
    }
    assert!(!budget().admission(usage).is_admitted());
    let err = budget().check(usage).expect_err("over cap must fail");
    assert_eq!(err.dimension, BudgetDimension::Nodes);
}

#[test]
fn texture_overuse_refuses_with_both_structural_overruns() {
    let usage = ResourceUsage::new(
        budget().max_nodes.saturating_add(2),
        budget().max_texture_bytes.saturating_add(1),
        0,
        0,
    );
    match budget().admission(usage) {
        Admission::Refused(overruns) => {
            assert_eq!(overruns.len(), 2);
            assert_eq!(overruns[0].dimension, BudgetDimension::Nodes);
            assert_eq!(overruns[1].dimension, BudgetDimension::TextureBytes);
        }
        other => panic!("structural overuse must refuse, got {other:?}"),
    }
}

#[test]
fn usage_sums_saturate_and_tree_nodes_counts_root() {
    let root = UiNode::new(
        UiNodeId::new(1),
        UiNodeKind::Box,
        vec![UiNode::leaf(
            UiNodeId::new(2),
            UiNodeKind::Text("hi".to_string()),
        )],
    );
    assert_eq!(tree_nodes(&root), 2);
    let total = ResourceUsage::new(2, 0, 0, 0).saturating_add(ResourceUsage::draws(5));
    assert_eq!(total, ResourceUsage::new(2, 0, 0, 5));
    let saturated = ResourceUsage::new(usize::MAX, u64::MAX, u64::MAX, usize::MAX)
        .saturating_add(ResourceUsage::new(1, 1, 1, 1));
    assert_eq!(saturated.nodes, usize::MAX);
    assert_eq!(saturated.texture_bytes, u64::MAX);
}

#[test]
fn overrun_display_is_human_readable() {
    let err = Overrun {
        dimension: BudgetDimension::DrawCalls,
        found: 600,
        cap: 512,
    };
    assert_eq!(
        err.text(),
        "budget overrun on draw-calls: 600 exceeds cap 512"
    );
}
