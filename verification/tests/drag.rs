use bitty_ui::drag::{
    CrossWorkspaceDrop, CrossWorkspaceError, DRAG_HISTORY_CAP, DRAG_MOVE_CMD, DRAG_RESIZE_CMD,
    DragHistory, DragMoveError, DragMoveSession, DropSpec, MAX_VIEWS_PER_WORKSPACE_TREE,
    RESIZE_HANDLE_CELLS, ResizeEdge, WORKSPACE_DROP_CMD, apply_tiled_resize, detect_resize_edge,
    move_leaf_to_workspace, resize_floating_rect, workspace_drop_target,
};
use bitty_ui::float32::Float32;
use bitty_ui::geometry::{Gaps, Point, Rect, SplitAxis};
use bitty_ui::layout::LayoutNode;
use bitty_ui::panel::PanelId;
use bitty_ui::panel_command::CommandRegistry;
use bitty_ui::view::{LeafView, ViewId};

fn single(value: f32) -> Float32 {
    Float32::from_bits(value.to_bits())
}

fn ratio_of(tree: &LayoutNode) -> f32 {
    f32::from_bits(tree.split_ratio_at(&[]).expect("split").to_bits())
}

fn leaf(id: u64) -> LayoutNode {
    LayoutNode::leaf(LeafView::new(ViewId::new(id), 40, 24))
}

fn pair() -> LayoutNode {
    LayoutNode::split(SplitAxis::Horizontal, single(0.5), leaf(1), leaf(2))
}

fn registry_with(cmds: &[&str]) -> CommandRegistry {
    let mut registry = CommandRegistry::new();
    let owner = PanelId::new(1);
    for cmd in cmds {
        registry.register(owner, cmd).expect("command registers");
    }
    registry
}

#[test]
fn undo_restores_pre_drag_snapshot() {
    let mut tree = pair();
    let mut history = DragHistory::new();
    assert!(history.is_empty());
    history.push(&tree);
    assert_eq!(history.len(), 1);
    assert!(tree.reparent_leaf(
        ViewId::new(2),
        ViewId::new(1),
        SplitAxis::Vertical,
        single(0.5),
        true
    ));
    assert_ne!(tree, pair());
    assert!(history.undo(&mut tree));
    assert_eq!(tree, pair());
    assert!(history.is_empty());
    let before = tree.clone();
    assert!(!history.undo(&mut tree));
    assert_eq!(tree, before);
}

#[test]
fn history_drops_oldest_at_cap() {
    let mut history = DragHistory::new();
    for i in 0..(DRAG_HISTORY_CAP + 5) {
        let tree = LayoutNode::leaf(LeafView::new(ViewId::new(i as u64), 80, 24));
        history.push(&tree);
    }
    assert_eq!(history.len(), DRAG_HISTORY_CAP);
    let mut probe = pair();
    assert!(history.undo(&mut probe));
    assert_eq!(
        probe.leaf_ids(),
        vec![ViewId::new((DRAG_HISTORY_CAP + 5 - 1) as u64)]
    );
    history.clear();
    assert!(history.is_empty());
}

#[test]
fn undo_resize_step_returns_prior_ratio() {
    let mut tree = pair();
    let mut history = DragHistory::new();
    history.push(&tree);
    assert!(tree.resize_split_by_drag(&[], 8, 80));
    assert!((ratio_of(&tree) - 0.6).abs() < 1e-6);
    assert!(history.undo(&mut tree));
    assert!((ratio_of(&tree) - 0.5).abs() < 1e-6);
}

#[test]
fn move_requires_mod_held() {
    assert_eq!(
        DragMoveSession::start(ViewId::new(1), false),
        Err(DragMoveError::ModNotHeld)
    );
    let session = DragMoveSession::start(ViewId::new(1), true).expect("mod held");
    assert_eq!(session.source(), ViewId::new(1));
    assert_eq!(session.preview_target(), None);
}

#[test]
fn move_preview_hit_tests_drop_target_without_mutating() {
    let tree = pair();
    let bounds = Rect::new(0, 0, 80, 24);
    let mut session = DragMoveSession::start(ViewId::new(1), true).expect("start");
    assert_eq!(
        session.preview(&tree, bounds, Gaps::zero(), Point::new(60, 12)),
        Some(ViewId::new(2))
    );
    assert_eq!(session.preview_target(), Some(ViewId::new(2)));
    assert_eq!(
        session.preview(&tree, bounds, Gaps::zero(), Point::new(200, 200)),
        None,
        "background hover clears the advisory preview"
    );
    assert_eq!(session.preview_target(), None);
}

#[test]
fn move_commit_validates_registry_then_reparents_with_undo() {
    let mut tree = pair();
    let mut history = DragHistory::new();
    let registry = registry_with(&[DRAG_MOVE_CMD]);
    DragMoveSession::start(ViewId::new(2), true)
        .expect("start")
        .commit(
            &mut tree,
            &mut history,
            &registry,
            DRAG_MOVE_CMD,
            DropSpec::new(ViewId::new(1), SplitAxis::Vertical, single(0.5), true),
        )
        .expect("commit routes through the registry");
    assert_eq!(tree.leaf_ids(), vec![ViewId::new(1), ViewId::new(2)]);
    assert!(history.undo(&mut tree));
    assert_eq!(tree, pair());
}

#[test]
fn move_commit_failures_leave_tree_and_history_untouched() {
    let no_registry = CommandRegistry::new();
    let registered = registry_with(&[DRAG_MOVE_CMD]);
    for (registry, command, source, target, want) in [
        (
            &no_registry,
            DRAG_MOVE_CMD,
            ViewId::new(2),
            ViewId::new(1),
            DragMoveError::Unregistered(DRAG_MOVE_CMD.to_string()),
        ),
        (
            &registered,
            "bitty.workspace:nope",
            ViewId::new(2),
            ViewId::new(1),
            DragMoveError::UnknownCommand("bitty.workspace:nope".to_string()),
        ),
        (
            &registered,
            DRAG_MOVE_CMD,
            ViewId::new(1),
            ViewId::new(1),
            DragMoveError::SelfDrop,
        ),
        (
            &registered,
            DRAG_MOVE_CMD,
            ViewId::new(404),
            ViewId::new(1),
            DragMoveError::SourceNotFound(ViewId::new(404)),
        ),
        (
            &registered,
            DRAG_MOVE_CMD,
            ViewId::new(2),
            ViewId::new(404),
            DragMoveError::TargetNotFound(ViewId::new(404)),
        ),
    ] {
        let mut tree = pair();
        let mut history = DragHistory::new();
        let err = DragMoveSession::start(source, true)
            .expect("start")
            .commit(
                &mut tree,
                &mut history,
                registry,
                command,
                DropSpec::new(target, SplitAxis::Horizontal, single(0.5), true),
            )
            .expect_err("commit must fail");
        assert_eq!(err, want);
        assert_eq!(tree, pair(), "tree untouched on {}", err.text());
        assert!(history.is_empty(), "no snapshot on {}", err.text());
    }
}

#[test]
fn tiled_resize_adjusts_ratio_through_registry_with_undo() {
    let mut tree = pair();
    let mut history = DragHistory::new();
    let registry = registry_with(&[DRAG_RESIZE_CMD]);
    apply_tiled_resize(
        &mut tree,
        &mut history,
        &registry,
        DRAG_RESIZE_CMD,
        &[],
        8,
        80,
    )
    .expect("resize routes");
    assert!((ratio_of(&tree) - 0.6).abs() < 1e-6);
    assert!(history.undo(&mut tree));
    assert_eq!(tree, pair());
}

#[test]
fn tiled_resize_failures_leave_tree_untouched() {
    let registered = registry_with(&[DRAG_RESIZE_CMD]);
    let empty = CommandRegistry::new();
    let cases: [(&CommandRegistry, &str, &[usize], i32, u16); 4] = [
        (&registered, "bitty.workspace:nope", &[], 8, 80),
        (&empty, DRAG_RESIZE_CMD, &[], 8, 80),
        (&registered, DRAG_RESIZE_CMD, &[7], 8, 80),
        (&registered, DRAG_RESIZE_CMD, &[], 8, 0),
    ];
    for (registry, command, path, delta, total) in cases {
        let mut tree = pair();
        let mut history = DragHistory::new();
        assert!(
            apply_tiled_resize(
                &mut tree,
                &mut history,
                registry,
                command,
                path,
                delta,
                total
            )
            .is_err()
        );
        assert_eq!(tree, pair());
        assert!(history.is_empty());
    }
    let mut tree = pair();
    let mut history = DragHistory::new();
    apply_tiled_resize(
        &mut tree,
        &mut history,
        &registered,
        DRAG_RESIZE_CMD,
        &[],
        400,
        80,
    )
    .expect("clamped resize succeeds");
    assert!((ratio_of(&tree) - 0.90).abs() < 1e-6);
}

#[test]
fn detect_resize_edge_corners_edges_and_misses() {
    let alloc = Rect::new(10, 5, 20, 10);
    assert_eq!(
        detect_resize_edge(alloc, Point::new(10, 5), RESIZE_HANDLE_CELLS),
        Some(ResizeEdge::TopLeft)
    );
    assert_eq!(
        detect_resize_edge(alloc, Point::new(29, 14), RESIZE_HANDLE_CELLS),
        Some(ResizeEdge::BottomRight)
    );
    assert_eq!(
        detect_resize_edge(alloc, Point::new(10, 8), RESIZE_HANDLE_CELLS),
        Some(ResizeEdge::Left)
    );
    assert_eq!(
        detect_resize_edge(alloc, Point::new(29, 8), RESIZE_HANDLE_CELLS),
        Some(ResizeEdge::Right)
    );
    assert_eq!(
        detect_resize_edge(alloc, Point::new(15, 5), RESIZE_HANDLE_CELLS),
        Some(ResizeEdge::Top)
    );
    assert_eq!(
        detect_resize_edge(alloc, Point::new(15, 14), RESIZE_HANDLE_CELLS),
        Some(ResizeEdge::Bottom)
    );
    assert_eq!(
        detect_resize_edge(alloc, Point::new(15, 8), RESIZE_HANDLE_CELLS),
        None
    );
    assert_eq!(
        detect_resize_edge(alloc, Point::new(0, 0), RESIZE_HANDLE_CELLS),
        None
    );
    assert!(ResizeEdge::TopLeft.is_corner());
    assert!(!ResizeEdge::Left.is_corner());
}

#[test]
fn floating_resize_grows_shrinks_and_clamps() {
    let container = Rect::new(0, 0, 80, 24);
    let current = Rect::new(10, 5, 20, 10);
    assert_eq!(
        resize_floating_rect(current, ResizeEdge::Right, 5, 0, container),
        Rect::new(10, 5, 25, 10)
    );
    assert_eq!(
        resize_floating_rect(current, ResizeEdge::BottomRight, 5, 3, container),
        Rect::new(10, 5, 25, 13)
    );
    assert_eq!(
        resize_floating_rect(current, ResizeEdge::Left, 4, 0, container),
        Rect::new(14, 5, 16, 10)
    );
    assert_eq!(
        resize_floating_rect(current, ResizeEdge::TopLeft, 4, 2, container),
        Rect::new(14, 7, 16, 8)
    );
    let tiny = resize_floating_rect(current, ResizeEdge::Left, 100, 0, container);
    assert_eq!(tiny.width, LeafView::MIN_COLS);
    assert_eq!(tiny.x + tiny.width, current.x + current.width);
    let clipped = resize_floating_rect(current, ResizeEdge::Right, 100, 0, container);
    assert_eq!(clipped.right(), container.right());
    assert_eq!(clipped.x, current.x);
}

#[test]
fn cross_workspace_move_transfers_leaf_with_both_undos() {
    let mut src = pair();
    let mut dst = leaf(9);
    let mut src_history = DragHistory::new();
    let mut dst_history = DragHistory::new();
    let registry = registry_with(&[WORKSPACE_DROP_CMD]);
    let bounds = Rect::new(0, 0, 40, 24);
    assert_eq!(
        workspace_drop_target(&dst, bounds, Gaps::zero(), Point::new(5, 5)),
        Some(ViewId::new(9))
    );
    move_leaf_to_workspace(
        &mut src,
        &mut src_history,
        &mut dst,
        &mut dst_history,
        &registry,
        WORKSPACE_DROP_CMD,
        CrossWorkspaceDrop::new(
            ViewId::new(2),
            DropSpec::new(ViewId::new(9), SplitAxis::Horizontal, single(0.5), true),
        ),
    )
    .expect("cross-workspace drop routes");
    assert_eq!(src.leaf_ids(), vec![ViewId::new(1)]);
    assert_eq!(dst.leaf_ids(), vec![ViewId::new(9), ViewId::new(2)]);
    assert!(dst_history.undo(&mut dst));
    assert_eq!(dst, leaf(9));
    assert!(src_history.undo(&mut src));
    assert_eq!(src, pair());
}

#[test]
fn cross_workspace_failures_leave_both_trees_untouched() {
    let registered = registry_with(&[WORKSPACE_DROP_CMD]);
    let empty = CommandRegistry::new();
    let cases = [
        (&empty, WORKSPACE_DROP_CMD, ViewId::new(2), ViewId::new(9)),
        (
            &registered,
            "bitty.workspace:nope",
            ViewId::new(2),
            ViewId::new(9),
        ),
        (
            &registered,
            WORKSPACE_DROP_CMD,
            ViewId::new(404),
            ViewId::new(9),
        ),
        (
            &registered,
            WORKSPACE_DROP_CMD,
            ViewId::new(2),
            ViewId::new(404),
        ),
    ];
    for (registry, command, id, anchor) in cases {
        let mut src = pair();
        let mut dst = leaf(9);
        let mut src_history = DragHistory::new();
        let mut dst_history = DragHistory::new();
        assert!(
            move_leaf_to_workspace(
                &mut src,
                &mut src_history,
                &mut dst,
                &mut dst_history,
                registry,
                command,
                CrossWorkspaceDrop::new(
                    id,
                    DropSpec::new(anchor, SplitAxis::Horizontal, single(0.5), true),
                ),
            )
            .is_err()
        );
        assert_eq!(src, pair());
        assert_eq!(dst, leaf(9));
        assert!(src_history.is_empty());
        assert!(dst_history.is_empty());
    }
}

#[test]
fn cross_workspace_destination_bound_is_fail_closed() {
    let many: Vec<LayoutNode> = (0..MAX_VIEWS_PER_WORKSPACE_TREE as u64)
        .map(|i| leaf(100 + i))
        .collect();
    let mut dst = LayoutNode::stack(many);
    let mut src = pair();
    let mut src_history = DragHistory::new();
    let mut dst_history = DragHistory::new();
    let registry = registry_with(&[WORKSPACE_DROP_CMD]);
    assert_eq!(
        move_leaf_to_workspace(
            &mut src,
            &mut src_history,
            &mut dst,
            &mut dst_history,
            &registry,
            WORKSPACE_DROP_CMD,
            CrossWorkspaceDrop::new(
                ViewId::new(2),
                DropSpec::new(ViewId::new(100), SplitAxis::Horizontal, single(0.5), true),
            ),
        ),
        Err(CrossWorkspaceError::DestinationFull {
            max: MAX_VIEWS_PER_WORKSPACE_TREE
        })
    );
    assert_eq!(src, pair());
    assert_eq!(dst.leaf_count(), MAX_VIEWS_PER_WORKSPACE_TREE);
}
