use bitty_ui::drag::{DRAG_MOVE_CMD, DragHistory, DropSpec};
use bitty_ui::float32::Float32;
use bitty_ui::geometry::{Gaps, Point, Rect, SplitAxis};
use bitty_ui::gesture::{
    CommandInvocation, CommandOrigin, DropTarget, EquivalenceError, GestureError, GestureOutcome,
    GesturePhase, GestureTransaction, resolve_invocation, verify_origin_equivalence,
};
use bitty_ui::layout::LayoutNode;
use bitty_ui::panel::PanelId;
use bitty_ui::panel_command::CommandRegistry;
use bitty_ui::view::{LeafView, ViewId};

fn single(value: f32) -> Float32 {
    Float32::from_bits(value.to_bits())
}

const FLOATING_CMD_TOGGLE: &str = "bitty.workspace:floating-toggle";

fn leaf(id: u64) -> LayoutNode {
    LayoutNode::leaf(LeafView::new(ViewId::new(id), 40, 24))
}

fn pair() -> LayoutNode {
    LayoutNode::split(SplitAxis::Horizontal, single(0.5), leaf(1), leaf(2))
}

fn registry_with(cmds: &[&str]) -> CommandRegistry {
    let mut registry = CommandRegistry::new();
    let owner = PanelId::new(1);
    for cmd in cmds {
        registry.register(owner, cmd).expect("command registers");
    }
    registry
}

#[test]
fn lift_requires_mod_held() {
    assert_eq!(
        GestureTransaction::lift(ViewId::new(1), false, DRAG_MOVE_CMD),
        Err(GestureError::ModNotHeld)
    );
    let tx =
        GestureTransaction::lift(ViewId::new(1), true, DRAG_MOVE_CMD).expect("mod held lifts");
    assert_eq!(tx.source(), ViewId::new(1));
    assert_eq!(tx.command(), DRAG_MOVE_CMD);
    assert_eq!(tx.phase(), GesturePhase::Lifted);
    assert_eq!(tx.preview_target(), None);
}

#[test]
fn lift_rejects_malformed_command() {
    for bad in ["", "plaintext", "bitty.workspace:", "has space:cmd"] {
        assert_eq!(
            GestureTransaction::lift(ViewId::new(1), true, bad),
            Err(GestureError::MalformedCommand(bad.to_owned())),
            "lift must reject {bad:?}"
        );
    }
}

#[test]
fn preview_hit_tests_drop_target_without_mutating() {
    let tree = pair();
    let bounds = Rect::new(0, 0, 80, 24);
    let mut tx = GestureTransaction::lift(ViewId::new(1), true, DRAG_MOVE_CMD).expect("lift");
    assert_eq!(
        tx.update_preview(&tree, bounds, Gaps::zero(), Point::new(60, 12)),
        Some(ViewId::new(2))
    );
    assert_eq!(tx.phase(), GesturePhase::Previewing);
    assert_eq!(tx.preview_target(), Some(ViewId::new(2)));
    assert_eq!(
        tx.update_preview(&tree, bounds, Gaps::zero(), Point::new(200, 200)),
        None
    );
    assert_eq!(tx.preview_target(), None);
}

#[test]
fn drop_targets_list_every_other_leaf_deterministically() {
    let tree = pair();
    let tx = GestureTransaction::lift(ViewId::new(1), true, DRAG_MOVE_CMD).expect("lift");
    assert_eq!(
        tx.drop_targets(&tree),
        vec![DropTarget::new(ViewId::new(2))]
    );
    let spec = tx.drop_targets(&tree)[0].docking(SplitAxis::Vertical, single(0.5), true);
    assert_eq!(
        spec,
        DropSpec::new(ViewId::new(2), SplitAxis::Vertical, single(0.5), true)
    );
    let solo = leaf(1);
    assert!(tx.drop_targets(&solo).is_empty());
}

#[test]
fn esc_cancel_leaves_tree_and_history_untouched() {
    let tree = pair();
    let before = tree.clone();
    let bounds = Rect::new(0, 0, 80, 24);
    let mut tx = GestureTransaction::lift(ViewId::new(2), true, DRAG_MOVE_CMD).expect("lift");
    tx.update_preview(&tree, bounds, Gaps::zero(), Point::new(10, 12));
    assert_eq!(tx.cancel(), GestureOutcome::Cancelled);
    assert_eq!(tree, before, "cancel touches nothing");
}

#[test]
fn commit_routes_through_registry_with_undo() {
    let mut tree = pair();
    let mut history = DragHistory::new();
    let registry = registry_with(&[DRAG_MOVE_CMD]);
    let outcome = GestureTransaction::lift(ViewId::new(2), true, DRAG_MOVE_CMD)
        .expect("lift")
        .commit(
            &mut tree,
            &mut history,
            &registry,
            DropSpec::new(ViewId::new(1), SplitAxis::Vertical, single(0.5), true),
        )
        .expect("commit routes through the registry");
    assert_eq!(outcome, GestureOutcome::Committed);
    assert_eq!(tree.leaf_ids(), vec![ViewId::new(1), ViewId::new(2)]);
    assert!(history.undo(&mut tree));
    assert_eq!(tree, pair());
}

#[test]
fn commit_failures_leave_tree_and_history_untouched() {
    let no_registry = CommandRegistry::new();
    let registered = registry_with(&[DRAG_MOVE_CMD]);
    let cases: [(&CommandRegistry, &str, ViewId, ViewId, GestureError); 4] = [
        (
            &no_registry,
            DRAG_MOVE_CMD,
            ViewId::new(2),
            ViewId::new(1),
            GestureError::Unregistered(DRAG_MOVE_CMD.to_string()),
        ),
        (
            &registered,
            DRAG_MOVE_CMD,
            ViewId::new(1),
            ViewId::new(1),
            GestureError::SelfDrop,
        ),
        (
            &registered,
            DRAG_MOVE_CMD,
            ViewId::new(404),
            ViewId::new(1),
            GestureError::SourceNotFound(ViewId::new(404)),
        ),
        (
            &registered,
            DRAG_MOVE_CMD,
            ViewId::new(2),
            ViewId::new(404),
            GestureError::TargetNotFound(ViewId::new(404)),
        ),
    ];
    for (registry, command, source, target, want) in cases {
        let mut tree = pair();
        let mut history = DragHistory::new();
        let err = GestureTransaction::lift(source, true, command)
            .expect("lift")
            .commit(
                &mut tree,
                &mut history,
                registry,
                DropSpec::new(target, SplitAxis::Horizontal, single(0.5), true),
            )
            .expect_err("commit must fail");
        assert_eq!(err, want);
        assert_eq!(tree, pair(), "tree untouched on {}", err.text());
        assert!(history.is_empty(), "no snapshot on {}", err.text());
    }
}

#[test]
fn origin_names_are_stable_and_distinct() {
    let names: Vec<&str> = CommandOrigin::ALL
        .iter()
        .map(|origin| origin.as_str())
        .collect();
    assert_eq!(
        names,
        vec!["gesture", "keyboard", "palette", "cli", "ipc", "agent"]
    );
    assert_eq!(CommandOrigin::Gesture.as_str().to_string(), "gesture");
    assert_eq!(CommandOrigin::Agent.as_str().to_string(), "agent");
}

#[test]
fn every_origin_resolves_to_the_same_owner() {
    let owner = PanelId::new(1);
    let mut registry = CommandRegistry::new();
    registry.register(owner, DRAG_MOVE_CMD).expect("registers");
    registry
        .register(owner, FLOATING_CMD_TOGGLE)
        .expect("registers");
    for command in [DRAG_MOVE_CMD, FLOATING_CMD_TOGGLE] {
        for origin in CommandOrigin::ALL {
            let invocation = CommandInvocation::new(command, origin);
            assert_eq!(
                resolve_invocation(&registry, &invocation),
                Ok(owner),
                "{} must resolve {command} to the same owner", origin.as_str()
            );
        }
    }
}

#[test]
fn resolve_rejects_malformed_and_unregistered_commands() {
    let registry = registry_with(&[DRAG_MOVE_CMD]);
    let invocation = CommandInvocation::new("plaintext", CommandOrigin::Keyboard);
    assert_eq!(
        resolve_invocation(&registry, &invocation),
        Err(EquivalenceError::Malformed("plaintext".to_string()))
    );
    let invocation = CommandInvocation::new(FLOATING_CMD_TOGGLE, CommandOrigin::Ipc);
    assert_eq!(
        resolve_invocation(&registry, &invocation),
        Err(EquivalenceError::Unregistered(
            FLOATING_CMD_TOGGLE.to_string()
        ))
    );
}

#[test]
fn conformance_check_requires_one_owner_from_every_origin() {
    let owner = PanelId::new(1);
    let registry = registry_with(&[DRAG_MOVE_CMD]);
    assert_eq!(
        verify_origin_equivalence(&registry, DRAG_MOVE_CMD),
        Ok(owner)
    );
    assert_eq!(
        verify_origin_equivalence(&registry, FLOATING_CMD_TOGGLE),
        Err(EquivalenceError::Unregistered(
            FLOATING_CMD_TOGGLE.to_string()
        ))
    );
    assert_eq!(
        verify_origin_equivalence(&registry, "plaintext"),
        Err(EquivalenceError::Malformed("plaintext".to_string()))
    );
}
