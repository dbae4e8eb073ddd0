//! Pointer drags: moving a leaf inside a tree, resizing by an edge or a
//! corner, and dropping a leaf into another workspace.
//!
//! Every mutating step checks a registered workspace command first, records a
//! snapshot of the tree, and leaves everything untouched when it fails.

use crate::float32::Float32;
use crate::geometry;
use crate::geometry::{Gaps, Point, Rect, SplitAxis};
use crate::layout::LayoutNode;
use crate::layout_edit;
use crate::panel_command;
use crate::panel_command::CommandRegistry;
use crate::seqs;
use crate::text;
use crate::tree;
use crate::tree::Tree;
use crate::tree_laws;
use crate::view::{LeafView, ViewId};
use vstd::prelude::*;
use vstd::string::*;

verus! {

/// Most undo snapshots kept per drag session.
pub const DRAG_HISTORY_CAP: usize = 32;

/// Workspace command that carries a leaf move.
pub const DRAG_MOVE_CMD: &'static str = "bitty.workspace:drag-move";

/// Workspace command that carries a resize step.
pub const DRAG_RESIZE_CMD: &'static str = "bitty.workspace:drag-resize";

/// Workspace command that carries a drop into another workspace.
pub const WORKSPACE_DROP_CMD: &'static str = "bitty.workspace:drop";

/// Most leaves of a tree that takes a drop.
pub const MAX_VIEWS_PER_WORKSPACE_TREE: usize = 32;

/// Width of the grab zone along a border, in cells.
pub const RESIZE_HANDLE_CELLS: u16 = 1;

/// The history after one more snapshot: the oldest one goes when it is full.
pub open spec fn recorded(history: Seq<Tree>, t: Tree) -> Seq<Tree> {
    if history.len() >= DRAG_HISTORY_CAP {
        history.drop_first().push(t)
    } else {
        history.push(t)
    }
}

/// Undoing right after a snapshot gives back the tree it was taken of, and the
/// history as it was unless the oldest snapshot had to go.
pub proof fn undo_restores_the_snapshot(history: Seq<Tree>, t: Tree)
    ensures
        recorded(history, t).last() == t,
        recorded(history, t).drop_last() == (if history.len() >= DRAG_HISTORY_CAP {
            history.drop_first()
        } else {
            history
        }),
{
    if history.len() >= DRAG_HISTORY_CAP {
        assert(recorded(history, t).drop_last() =~= history.drop_first());
    } else {
        assert(recorded(history, t).drop_last() =~= history);
    }
}

/// Bounded undo history over tree snapshots, newest first out.
#[derive(Debug)]
pub struct DragHistory {
    snapshots: Vec<LayoutNode>,
}

impl View for DragHistory {
    type V = Seq<Tree>;

    closed spec fn view(&self) -> Seq<Tree> {
        LayoutNode::trees(self.snapshots@)
    }
}

impl DragHistory {
    /// The bound on the number of snapshots.
    pub open spec fn wf(self) -> bool {
        self@.len() <= DRAG_HISTORY_CAP
    }

    /// Creates an empty history.
    #[must_use]
    pub fn new() -> (h: Self)
        ensures
            h.wf(),
            h@ == Seq::<Tree>::empty(),
    {
        let h = Self { snapshots: Vec::new() };
        assert(h@ =~= Seq::<Tree>::empty());
        h
    }

    /// Number of snapshots.
    #[must_use]
    pub fn len(&self) -> (n: usize)
        ensures
            n == self@.len(),
    {
        proof {
            LayoutNode::trees_index(self.snapshots@);
        }
        self.snapshots.len()
    }

    /// True when no snapshot is kept.
    #[must_use]
    pub fn is_empty(&self) -> (empty: bool)
        ensures
            empty == (self@.len() == 0),
    {
        self.len() == 0
    }

    /// Records `tree`; the oldest snapshot goes when the history is full.
    pub fn push(&mut self, tree: &LayoutNode)
        requires
            old(self).wf(),
        ensures
            final(self).wf(),
            final(self)@ == recorded(old(self)@, tree.tree()),
    {
        proof {
            LayoutNode::trees_index(self.snapshots@);
        }
        if self.snapshots.len() >= DRAG_HISTORY_CAP {
            let _oldest = self.snapshots.remove(0);
        }
        self.snapshots.push(tree.clone());
        proof {
            LayoutNode::trees_index(self.snapshots@);
            assert(self@ =~= recorded(old(self)@, tree.tree()));
        }
    }

    /// Restores the newest snapshot into `tree`. Returns `false` and changes
    /// nothing when there is none.
    pub fn undo(&mut self, tree: &mut LayoutNode) -> (undone: bool)
        requires
            old(self).wf(),
        ensures
            final(self).wf(),
            undone == (old(self)@.len() > 0),
            undone ==> final(tree).tree() == old(self)@.last() && final(self)@ == old(self)@.drop_last(),
            !undone ==> final(tree).tree() == old(tree).tree() && final(self)@ == old(self)@,
    {
        proof {
            LayoutNode::trees_index(self.snapshots@);
        }
        match self.snapshots.pop() {
            None => false,
            Some(snapshot) => {
                *tree = snapshot;
                proof {
                    LayoutNode::trees_index(self.snapshots@);
                    assert(self@ =~= old(self)@.drop_last());
                }
                true
            },
        }
    }

    /// Drops every snapshot.
    pub fn clear(&mut self)
        ensures
            final(self).wf(),
            final(self)@ == Seq::<Tree>::empty(),
    {
        self.snapshots.clear();
        assert(self@ =~= Seq::<Tree>::empty());
    }
}

impl Default for DragHistory {
    fn default() -> (h: Self)
        ensures
            h.wf(),
            h@ == Seq::<Tree>::empty(),
    {
        Self::new()
    }
}

impl Clone for DragHistory {
    fn clone(&self) -> (h: Self)
        ensures
            h@ == self@,
    {
        let mut snapshots: Vec<LayoutNode> = Vec::new();
        let mut i: usize = 0;
        while i < self.snapshots.len()
            invariant
                0 <= i <= self.snapshots.len(),
                snapshots@.len() == i,
                forall|j: int|
                    0 <= j < i ==> (#[trigger] snapshots@[j]).tree() == self.snapshots@[j].tree(),
            decreases self.snapshots.len() - i,
        {
            snapshots.push(self.snapshots[i].clone());
            i = i + 1;
        }
        let h = Self { snapshots };
        proof {
            LayoutNode::trees_index(self.snapshots@);
            LayoutNode::trees_index(snapshots@);
            assert(h@ =~= self@);
        }
        h
    }
}

/// Where a dragged leaf docks.
#[derive(Debug, Clone, Copy, PartialEq)]
pub struct DropSpec {
    /// Leaf that the dragged one docks beside.
    pub target: ViewId,
    /// Axis of the new split.
    pub axis: SplitAxis,
    /// Ratio of the new split.
    pub ratio: Float32,
    /// True puts the dragged leaf second, false first.
    pub after: bool,
}

impl DropSpec {
    /// Creates a drop plan.
    #[must_use]
    pub fn new(target: ViewId, axis: SplitAxis, ratio: Float32, after: bool) -> (d: Self)
        ensures
            d == (DropSpec { target, axis, ratio, after }),
    {
        Self { target, axis, ratio, after }
    }
}

/// Which leaf moves to another workspace and where it docks there.
#[derive(Debug, Clone, Copy, PartialEq)]
pub struct CrossWorkspaceDrop {
    /// Leaf taken out of the source tree.
    pub id: ViewId,
    /// Docking plan in the destination tree.
    pub anchor: DropSpec,
}

impl CrossWorkspaceDrop {
    /// Creates a plan.
    #[must_use]
    pub fn new(id: ViewId, anchor: DropSpec) -> (d: Self)
        ensures
            d == (CrossWorkspaceDrop { id, anchor }),
    {
        Self { id, anchor }
    }
}

/// Failure of a move gesture.
#[derive(Debug, Clone, PartialEq, Eq)]
pub enum DragMoveError {
    /// The gesture started without the modifier.
    ModNotHeld,
    /// Not the move command.
    UnknownCommand(String),
    /// The move command has no owner.
    Unregistered(String),
    /// The dragged leaf is not in the tree.
    SourceNotFound(ViewId),
    /// The drop target is not in the tree.
    TargetNotFound(ViewId),
    /// A leaf was dropped on itself.
    SelfDrop,
}

impl DragMoveError {
    /// The message of the error.
    pub open spec fn spelled(self) -> Seq<char> {
        match self {
            DragMoveError::ModNotHeld => "drag move requires Mod held"@,
            DragMoveError::UnknownCommand(cmd) => "unknown drag move command: "@ + cmd@,
            DragMoveError::Unregistered(cmd) => "drag move command not registered: "@ + cmd@,
            DragMoveError::SourceNotFound(id) => "drag move source not found: "@ + id.spelled(),
            DragMoveError::TargetNotFound(id) => "drag move target not found: "@ + id.spelled(),
            DragMoveError::SelfDrop => "drag move source and target are the same leaf"@,
        }
    }

    /// Spells the error.
    #[must_use]
    pub fn text(&self) -> (out: String)
        ensures
            out@ == self.spelled(),
    {
        match self {
            Self::ModNotHeld => "drag move requires Mod held".to_owned(),
            Self::UnknownCommand(cmd) => text::joined("unknown drag move command: ", cmd.as_str()),
            Self::Unregistered(cmd) => text::joined(
                "drag move command not registered: ",
                cmd.as_str(),
            ),
            Self::SourceNotFound(id) => text::joined(
                "drag move source not found: ",
                id.text().as_str(),
            ),
            Self::TargetNotFound(id) => text::joined(
                "drag move target not found: ",
                id.text().as_str(),
            ),
            Self::SelfDrop => "drag move source and target are the same leaf".to_owned(),
        }
    }
}

/// The command is the expected one and has an owner.
pub open spec fn routed(registry: CommandRegistry, command: Seq<char>, expected: Seq<char>) -> bool {
    command == expected && panel_command::owner_in(registry.bindings(), command) is Some
}

/// Move gesture in progress.
#[derive(Debug, Clone, Copy, PartialEq, Eq, Structural)]
pub struct DragMoveSession {
    source: ViewId,
    preview: Option<ViewId>,
}

impl DragMoveSession {
    /// The dragged leaf.
    pub closed spec fn dragged(self) -> ViewId {
        self.source
    }

    /// The leaf hovered last.
    pub closed spec fn hovered(self) -> Option<ViewId> {
        self.preview
    }

    /// Begins a move of `source`; the modifier has to be held.
    pub fn start(source: ViewId, mod_held: bool) -> (r: Result<Self, DragMoveError>)
        ensures
            match r {
                Ok(s) => mod_held && s.dragged() == source && s.hovered() is None,
                Err(e) => !mod_held && e == DragMoveError::ModNotHeld,
            },
    {
        if !mod_held {
            return Err(DragMoveError::ModNotHeld);
        }
        Ok(Self { source, preview: None })
    }

    /// The dragged leaf.
    #[must_use]
    pub fn source(&self) -> (id: ViewId)
        ensures
            id == self.dragged(),
    {
        self.source
    }

    /// The leaf hovered last, if any.
    #[must_use]
    pub fn preview_target(&self) -> (id: Option<ViewId>)
        ensures
            id == self.hovered(),
    {
        self.preview
    }

    /// Hit-tests `point` and remembers the hovered leaf.
    pub fn preview(&mut self, tree: &LayoutNode, bounds: Rect, gaps: Gaps, point: Point) -> (hit:
        Option<ViewId>)
        ensures
            hit == tree::top_hit(
                tree.tree().allocate(bounds, geometry::inset(bounds, gaps.outer), gaps.inner),
                point,
            ),
            final(self).hovered() == hit,
            final(self).dragged() == old(self).dragged(),
    {
        let hit = tree.hit_test_leaf(bounds, gaps, point);
        self.preview = hit;
        hit
    }

    /// Commits the move: checks the command name, its owner, that the leaf is
    /// not dropped on itself, the dragged leaf and the target, in this order;
    /// then records a snapshot and moves the leaf.
    pub fn commit(
        self,
        tree: &mut LayoutNode,
        history: &mut DragHistory,
        registry: &CommandRegistry,
        command: &str,
        drop: DropSpec,
    ) -> (r: Result<(), DragMoveError>)
        requires
            old(history).wf(),
        ensures
            final(history).wf(),
            match r {
                Ok(_) => {
                    &&& routed(*registry, command@, DRAG_MOVE_CMD@)
                    &&& layout_edit::can_reparent(old(tree).tree(), self.dragged(), drop.target)
                    &&& final(tree).tree() == layout_edit::reparented(
                        old(tree).tree(),
                        self.dragged(),
                        drop.target,
                        drop.axis,
                        drop.ratio@,
                        drop.after,
                    )
                    &&& final(history)@ == recorded(old(history)@, old(tree).tree())
                },
                Err(e) => {
                    &&& final(tree).tree() == old(tree).tree()
                    &&& final(history)@ == old(history)@
                    &&& match e {
                        DragMoveError::UnknownCommand(c) => command@ != DRAG_MOVE_CMD@ && c@
                            == command@,
                        DragMoveError::Unregistered(c) => command@ == DRAG_MOVE_CMD@ && !routed(
                            *registry,
                            command@,
                            DRAG_MOVE_CMD@,
                        ) && c@ == command@,
                        DragMoveError::SelfDrop => routed(*registry, command@, DRAG_MOVE_CMD@)
                            && self.dragged() == drop.target,
                        DragMoveError::SourceNotFound(id) => routed(
                            *registry,
                            command@,
                            DRAG_MOVE_CMD@,
                        ) && self.dragged() != drop.target && id == self.dragged() && !old(tree).tree().has(id),
                        DragMoveError::TargetNotFound(id) => routed(
                            *registry,
                            command@,
                            DRAG_MOVE_CMD@,
                        ) && self.dragged() != drop.target && old(tree).tree().has(self.dragged())
                            && id == drop.target && !old(tree).tree().has(id),
                        DragMoveError::ModNotHeld => false,
                    }
                },
            },
    {
        if !text::same_text(command, DRAG_MOVE_CMD) {
            return Err(DragMoveError::UnknownCommand(command.to_owned()));
        }
        if registry.owner_of(command).is_none() {
            return Err(DragMoveError::Unregistered(command.to_owned()));
        }
        if self.source == drop.target {
            return Err(DragMoveError::SelfDrop);
        }
        if tree.find_leaf(self.source).is_none() {
            return Err(DragMoveError::SourceNotFound(self.source));
        }
        if tree.find_leaf(drop.target).is_none() {
            return Err(DragMoveError::TargetNotFound(drop.target));
        }
        history.push(tree);
        let _moved: bool = tree.reparent_leaf(
            self.source,
            drop.target,
            drop.axis,
            drop.ratio,
            drop.after,
        );
        Ok(())
    }
}

/// Failure of a tiled resize step.
#[derive(Debug, Clone, PartialEq, Eq)]
pub enum DragResizeError {
    /// Not the resize command.
    UnknownCommand(String),
    /// The resize command has no owner.
    Unregistered(String),
    /// No split stands at the path, or there are no cells to divide.
    BadHandle,
}

impl DragResizeError {
    /// The message of the error.
    pub open spec fn spelled(self) -> Seq<char> {
        match self {
            DragResizeError::UnknownCommand(cmd) => "unknown drag resize command: "@ + cmd@,
            DragResizeError::Unregistered(cmd) => "drag resize command not registered: "@ + cmd@,
            DragResizeError::BadHandle => "drag resize handle addresses no split"@,
        }
    }

    /// Spells the error.
    #[must_use]
    pub fn text(&self) -> (out: String)
        ensures
            out@ == self.spelled(),
    {
        match self {
            Self::UnknownCommand(cmd) => text::joined(
                "unknown drag resize command: ",
                cmd.as_str(),
            ),
            Self::Unregistered(cmd) => text::joined(
                "drag resize command not registered: ",
                cmd.as_str(),
            ),
            Self::BadHandle => "drag resize handle addresses no split".to_owned(),
        }
    }
}

/// Which border of a leaf a resize grabs.
#[derive(Debug, Clone, Copy, PartialEq, Eq, Structural, Hash)]
pub enum ResizeEdge {
    /// The left border.
    Left,
    /// The right border.
    Right,
    /// The top border.
    Top,
    /// The bottom border.
    Bottom,
    /// The top left corner.
    TopLeft,
    /// The top right corner.
    TopRight,
    /// The bottom left corner.
    BottomLeft,
    /// The bottom right corner.
    BottomRight,
}

impl ResizeEdge {
    /// The grab moves the left border.
    pub open spec fn moves_left(self) -> bool {
        self is Left || self is TopLeft || self is BottomLeft
    }

    /// The grab moves the right border.
    pub open spec fn moves_right(self) -> bool {
        self is Right || self is TopRight || self is BottomRight
    }

    /// The grab moves the top border.
    pub open spec fn moves_top(self) -> bool {
        self is Top || self is TopLeft || self is TopRight
    }

    /// The grab moves the bottom border.
    pub open spec fn moves_bottom(self) -> bool {
        self is Bottom || self is BottomLeft || self is BottomRight
    }

    /// True for corner grabs (both axes move).
    #[must_use]
    pub fn is_corner(self) -> (corner: bool)
        ensures
            corner == ((self.moves_left() || self.moves_right()) && (self.moves_top()
                || self.moves_bottom())),
    {
        matches!(self, Self::TopLeft | Self::TopRight | Self::BottomLeft | Self::BottomRight)
    }
}

/// The border that `point` grabs: within `handle` cells of it. A corner wins
/// over an edge, and left and top win when both sides are near.
pub open spec fn grabbed_edge(alloc: Rect, point: Point, handle: u16) -> Option<ResizeEdge> {
    let left = point.x - alloc.x < handle;
    let right = alloc.right_edge() - 1 - point.x < handle;
    let top = point.y - alloc.y < handle;
    let bottom = alloc.bottom_edge() - 1 - point.y < handle;
    if !alloc.covers(point.x as int, point.y as int) {
        None
    } else if (left || right) && (top || bottom) {
        if left && top {
            Some(ResizeEdge::TopLeft)
        } else if left {
            Some(ResizeEdge::BottomLeft)
        } else if top {
            Some(ResizeEdge::TopRight)
        } else {
            Some(ResizeEdge::BottomRight)
        }
    } else if left {
        Some(ResizeEdge::Left)
    } else if right {
        Some(ResizeEdge::Right)
    } else if top {
        Some(ResizeEdge::Top)
    } else if bottom {
        Some(ResizeEdge::Bottom)
    } else {
        None
    }
}

/// Detects which border of `alloc` a resize grabs.
#[must_use]
pub fn detect_resize_edge(alloc: Rect, point: Point, handle: u16) -> (edge: Option<ResizeEdge>)
    ensures
        edge == grabbed_edge(alloc, point, handle),
{
    if !alloc.contains_point(point) {
        return None;
    }
    let near_left: bool = point.x - alloc.x < handle;
    let near_top: bool = point.y - alloc.y < handle;
    let near_right: bool = alloc.right() - (point.x as u32 + 1) < handle as u32;
    let near_bottom: bool = alloc.bottom() - (point.y as u32 + 1) < handle as u32;
    match (near_left || near_right, near_top || near_bottom) {
        (true, true) => Some(
            match (near_left, near_top) {
                (true, true) => ResizeEdge::TopLeft,
                (true, false) => ResizeEdge::BottomLeft,
                (false, true) => ResizeEdge::TopRight,
                (false, false) => ResizeEdge::BottomRight,
            },
        ),
        (true, false) => Some(
            if near_left {
                ResizeEdge::Left
            } else {
                ResizeEdge::Right
            },
        ),
        (false, true) => Some(
            if near_top {
                ResizeEdge::Top
            } else {
                ResizeEdge::Bottom
            },
        ),
        (false, false) => None,
    }
}

/// Applies one tiled resize step: checks the command name, its owner and the
/// handle, in this order; then records a snapshot and drags the divider.
pub fn apply_tiled_resize(
    tree: &mut LayoutNode,
    history: &mut DragHistory,
    registry: &CommandRegistry,
    command: &str,
    path: &[usize],
    delta_cells: i32,
    total_cells: u16,
) -> (r: Result<(), DragResizeError>)
    requires
        old(history).wf(),
    ensures
        final(history).wf(),
        match r {
            Ok(_) => {
                &&& routed(*registry, command@, DRAG_RESIZE_CMD@)
                &&& total_cells > 0
                &&& old(tree).tree().ratio_at(path@) is Some
                &&& final(tree).tree() == layout_edit::drag_resized(
                    old(tree).tree(),
                    path@,
                    delta_cells as int,
                    total_cells as nat,
                )
                &&& final(history)@ == recorded(old(history)@, old(tree).tree())
            },
            Err(e) => {
                &&& final(tree).tree() == old(tree).tree()
                &&& final(history)@ == old(history)@
                &&& match e {
                    DragResizeError::UnknownCommand(c) => command@ != DRAG_RESIZE_CMD@ && c@
                        == command@,
                    DragResizeError::Unregistered(c) => command@ == DRAG_RESIZE_CMD@ && !routed(
                        *registry,
                        command@,
                        DRAG_RESIZE_CMD@,
                    ) && c@ == command@,
                    DragResizeError::BadHandle => routed(*registry, command@, DRAG_RESIZE_CMD@)
                        && (total_cells == 0 || old(tree).tree().ratio_at(path@) is None),
                }
            },
        },
{
    if !text::same_text(command, DRAG_RESIZE_CMD) {
        return Err(DragResizeError::UnknownCommand(command.to_owned()));
    }
    if registry.owner_of(command).is_none() {
        return Err(DragResizeError::Unregistered(command.to_owned()));
    }
    if total_cells == 0 || tree.split_ratio_at(path).is_none() {
        return Err(DragResizeError::BadHandle);
    }
    history.push(tree);
    let _resized: bool = tree.resize_split_by_drag(path, delta_cells, total_cells);
    Ok(())
}

/// The span `[lo, hi)` after one of its ends has moved by `d`: it keeps `least`
/// cells by holding the other end.
pub open spec fn moved_span(
    lo: int,
    hi: int,
    moves_lo: bool,
    moves_hi: bool,
    d: int,
    least: int,
) -> (int, int) {
    let a = if moves_lo {
        lo + d
    } else {
        lo
    };
    let b = if moves_hi {
        hi + d
    } else {
        hi
    };
    if b - a >= least {
        (a, b)
    } else if moves_lo {
        (b - least, b)
    } else {
        (a, a + least)
    }
}

/// The part of a span inside `[from, to)`. Where less than `least` cells are
/// inside, it keeps `least` cells there, or all of them when there are fewer,
/// next to its end when its start was moved and next to its start otherwise. A
/// start beyond the last addressable cell stays on that cell.
pub open spec fn clipped_span(
    span: (int, int),
    moves_lo: bool,
    least: int,
    from: int,
    to: int,
) -> (int, int) {
    let first = geometry::clamp_int(span.0, from, geometry::min_int(to, u16::MAX as int));
    let last = geometry::clamp_int(span.1, from, to);
    let kept = geometry::min_int(least, to - from);
    if last - first >= kept {
        (first, last)
    } else if moves_lo {
        let held = geometry::max_int(from, last - kept);
        (held, held + kept)
    } else {
        let held = geometry::min_int(to, first + kept);
        (held - kept, held)
    }
}

/// The span `[lo, hi)` after one of its ends has moved by `d`, with at least
/// `least` cells and clipped to `[from, to)`.
pub open spec fn resized_span(
    lo: int,
    hi: int,
    moves_lo: bool,
    moves_hi: bool,
    d: int,
    least: int,
    from: int,
    to: int,
) -> (int, int) {
    clipped_span(moved_span(lo, hi, moves_lo, moves_hi, d, least), moves_lo, least, from, to)
}

/// The floating rectangle after `edge` was dragged by `dx` and `dy`.
pub open spec fn floating_resized(
    current: Rect,
    edge: ResizeEdge,
    dx: i16,
    dy: i16,
    container: Rect,
) -> Rect {
    let (x0, x1) = resized_span(
        current.x as int,
        current.right_edge(),
        edge.moves_left(),
        edge.moves_right(),
        dx as int,
        LeafView::MIN_COLS as int,
        container.x as int,
        container.right_edge(),
    );
    let (y0, y1) = resized_span(
        current.y as int,
        current.bottom_edge(),
        edge.moves_top(),
        edge.moves_bottom(),
        dy as int,
        LeafView::MIN_ROWS as int,
        container.y as int,
        container.bottom_edge(),
    );
    Rect { x: x0 as u16, y: y0 as u16, width: (x1 - x0) as u16, height: (y1 - y0) as u16 }
}

fn move_span(lo: i32, hi: i32, moves_lo: bool, moves_hi: bool, d: i16, least: u16) -> (span: (
    i32,
    i32,
))
    requires
        0 <= lo <= u16::MAX,
        lo <= hi <= 2 * u16::MAX,
    ensures
        ({
            let (a, b) = moved_span(
                lo as int,
                hi as int,
                moves_lo,
                moves_hi,
                d as int,
                least as int,
            );
            span.0 == a && span.1 == b
        }),
        -0x4_0000 <= span.0 <= 0x4_0000,
        -0x4_0000 <= span.1 <= 0x4_0000,
{
    let mut a: i32 = lo;
    let mut b: i32 = hi;
    if moves_lo {
        a = a + d as i32;
    }
    if moves_hi {
        b = b + d as i32;
    }
    if b - a < least as i32 {
        if moves_lo {
            a = b - least as i32;
        } else {
            b = a + least as i32;
        }
    }
    (a, b)
}

fn clamp_to(value: i32, low: i32, high: i32) -> (r: i32)
    requires
        low <= high,
    ensures
        r == geometry::clamp_int(value as int, low as int, high as int),
        low <= r <= high,
{
    if value < low {
        low
    } else if value > high {
        high
    } else {
        value
    }
}

fn clip_span(span: (i32, i32), moves_lo: bool, least: u16, from: u16, len: u16) -> (r: (u16, u16))
    requires
        -0x4_0000 <= span.0 <= 0x4_0000,
        -0x4_0000 <= span.1 <= 0x4_0000,
    ensures
        ({
            let (a, b) = clipped_span(
                (span.0 as int, span.1 as int),
                moves_lo,
                least as int,
                from as int,
                from + len,
            );
            r.0 == a && r.1 == b - a
        }),
{
    let start: i32 = from as i32;
    let end: i32 = from as i32 + len as i32;
    let reach: i32 = if end > u16::MAX as i32 {
        u16::MAX as i32
    } else {
        end
    };
    let first: i32 = clamp_to(span.0, start, reach);
    let last: i32 = clamp_to(span.1, start, end);
    let kept: i32 = if len < least {
        len as i32
    } else {
        least as i32
    };
    if last - first >= kept {
        (first as u16, (last - first) as u16)
    } else if moves_lo {
        let held: i32 = if last - kept < start {
            start
        } else {
            last - kept
        };
        (held as u16, kept as u16)
    } else {
        let held: i32 = if first + kept > end {
            end
        } else {
            first + kept
        };
        ((held - kept) as u16, kept as u16)
    }
}

fn resize_span(
    lo: i32,
    hi: i32,
    moves_lo: bool,
    moves_hi: bool,
    d: i16,
    least: u16,
    from: u16,
    len: u16,
) -> (span: (u16, u16))
    requires
        0 <= lo <= u16::MAX,
        lo <= hi <= 2 * u16::MAX,
    ensures
        ({
            let (a, b) = resized_span(
                lo as int,
                hi as int,
                moves_lo,
                moves_hi,
                d as int,
                least as int,
                from as int,
                from + len,
            );
            span.0 == a && span.1 == b - a
        }),
{
    clip_span(move_span(lo, hi, moves_lo, moves_hi, d, least), moves_lo, least, from, len)
}

/// Adjusts a floating rectangle by dragging `edge`. The result keeps the
/// minimum size in each dimension, as far as `container` has room, and is
/// clipped to `container`.
#[must_use]
pub fn resize_floating_rect(
    current: Rect,
    edge: ResizeEdge,
    dx: i16,
    dy: i16,
    container: Rect,
) -> (r: Rect)
    ensures
        r == floating_resized(current, edge, dx, dy, container),
{
    let moves_left: bool = matches!(
        edge,
        ResizeEdge::Left | ResizeEdge::TopLeft | ResizeEdge::BottomLeft
    );
    let moves_right: bool = matches!(
        edge,
        ResizeEdge::Right | ResizeEdge::TopRight | ResizeEdge::BottomRight
    );
    let moves_top: bool = matches!(
        edge,
        ResizeEdge::Top | ResizeEdge::TopLeft | ResizeEdge::TopRight
    );
    let moves_bottom: bool = matches!(
        edge,
        ResizeEdge::Bottom | ResizeEdge::BottomLeft | ResizeEdge::BottomRight
    );
    let (x, width) = resize_span(
        current.x as i32,
        current.right() as i32,
        moves_left,
        moves_right,
        dx,
        LeafView::MIN_COLS,
        container.x,
        container.width,
    );
    let (y, height) = resize_span(
        current.y as i32,
        current.bottom() as i32,
        moves_top,
        moves_bottom,
        dy,
        LeafView::MIN_ROWS,
        container.y,
        container.height,
    );
    Rect { x, y, width, height }
}

/// A resized floating rectangle lies inside its container.
pub proof fn resized_stays_inside(
    current: Rect,
    edge: ResizeEdge,
    dx: i16,
    dy: i16,
    container: Rect,
)
    ensures
        container.encloses(floating_resized(current, edge, dx, dy, container)),
{
}

/// A resized floating rectangle has the minimum size, wherever it was, as far
/// as its container has room.
pub proof fn resizing_keeps_the_minimum(
    current: Rect,
    edge: ResizeEdge,
    dx: i16,
    dy: i16,
    container: Rect,
)
    ensures
        ({
            let r = floating_resized(current, edge, dx, dy, container);
            &&& container.width >= LeafView::MIN_COLS ==> r.width >= LeafView::MIN_COLS
            &&& container.height >= LeafView::MIN_ROWS ==> r.height >= LeafView::MIN_ROWS
        }),
{
}

/// A grabbed border of a floating rectangle inside its container goes where it is
/// dragged: it ends at its old place plus the signed distance, but not beyond
/// the container and not nearer to the opposite border than the minimum size.
/// The opposite border stays.
pub proof fn grabbed_borders_follow_the_pointer(
    current: Rect,
    edge: ResizeEdge,
    dx: i16,
    dy: i16,
    container: Rect,
)
    requires
        current.width >= 1,
        current.height >= 1,
        container.x <= current.x,
        container.y <= current.y,
        current.x + current.width <= container.x + container.width <= 65535,
        current.y + current.height <= container.y + container.height <= 65535,
    ensures
        ({
            let r = floating_resized(current, edge, dx, dy, container);
            let right = current.x + current.width;
            let bottom = current.y + current.height;
            let on_left = edge == ResizeEdge::Left || edge == ResizeEdge::TopLeft || edge
                == ResizeEdge::BottomLeft;
            let on_right = edge == ResizeEdge::Right || edge == ResizeEdge::TopRight || edge
                == ResizeEdge::BottomRight;
            let on_top = edge == ResizeEdge::Top || edge == ResizeEdge::TopLeft || edge
                == ResizeEdge::TopRight;
            let on_bottom = edge == ResizeEdge::Bottom || edge == ResizeEdge::BottomLeft || edge
                == ResizeEdge::BottomRight;
            &&& on_right ==> r.x == current.x && r.x + r.width == (if right + dx < current.x + 1 {
                current.x + 1
            } else if right + dx > container.x + container.width {
                container.x + container.width
            } else {
                right + dx
            })
            &&& on_left ==> r.x + r.width == right && r.x == (if current.x + dx > right - 1 {
                right - 1
            } else if current.x + dx < container.x {
                container.x as int
            } else {
                current.x + dx
            })
            &&& !on_left && !on_right ==> r.x == current.x && r.width == current.width
            &&& on_bottom ==> r.y == current.y && r.y + r.height == (if bottom + dy < current.y
                + 1 {
                current.y + 1
            } else if bottom + dy > container.y + container.height {
                container.y + container.height
            } else {
                bottom + dy
            })
            &&& on_top ==> r.y + r.height == bottom && r.y == (if current.y + dy > bottom - 1 {
                bottom - 1
            } else if current.y + dy < container.y {
                container.y as int
            } else {
                current.y + dy
            })
            &&& !on_top && !on_bottom ==> r.y == current.y && r.height == current.height
        }),
{
}

/// A border is grabbed from a cell of the rectangle that is within the handle of
/// it. A cell near two opposite borders grabs the left or the upper one, a cell
/// near borders of both axes grabs the corner, and a cell near none, or outside,
/// grabs nothing.
pub proof fn near_borders_are_grabbed(alloc: Rect, point: Point, handle: u16)
    ensures
        ({
            let inside = alloc.x <= point.x < alloc.x + alloc.width && alloc.y <= point.y < alloc.y
                + alloc.height;
            let left = inside && point.x - alloc.x < handle;
            let right = inside && !left && alloc.x + alloc.width - 1 - point.x < handle;
            let top = inside && point.y - alloc.y < handle;
            let bottom = inside && !top && alloc.y + alloc.height - 1 - point.y < handle;
            let grabbed = grabbed_edge(alloc, point, handle);
            &&& left == (grabbed == Some(ResizeEdge::Left) || grabbed == Some(ResizeEdge::TopLeft)
                || grabbed == Some(ResizeEdge::BottomLeft))
            &&& right == (grabbed == Some(ResizeEdge::Right) || grabbed == Some(
                ResizeEdge::TopRight,
            ) || grabbed == Some(ResizeEdge::BottomRight))
            &&& top == (grabbed == Some(ResizeEdge::Top) || grabbed == Some(ResizeEdge::TopLeft)
                || grabbed == Some(ResizeEdge::TopRight))
            &&& bottom == (grabbed == Some(ResizeEdge::Bottom) || grabbed == Some(
                ResizeEdge::BottomLeft,
            ) || grabbed == Some(ResizeEdge::BottomRight))
        }),
{
}

/// A floating rectangle inside its container keeps every border that was not
/// grabbed, as long as the container ends on an addressable cell.
pub proof fn resizing_keeps_far_borders(
    current: Rect,
    edge: ResizeEdge,
    dx: i16,
    dy: i16,
    container: Rect,
)
    requires
        container.encloses(current),
        current.width >= LeafView::MIN_COLS,
        current.height >= LeafView::MIN_ROWS,
        container.right_edge() <= u16::MAX,
        container.bottom_edge() <= u16::MAX,
    ensures
        ({
            let r = floating_resized(current, edge, dx, dy, container);
            &&& !edge.moves_left() ==> r.x == current.x
            &&& !edge.moves_right() ==> r.right_edge() == current.right_edge()
            &&& !edge.moves_top() ==> r.y == current.y
            &&& !edge.moves_bottom() ==> r.bottom_edge() == current.bottom_edge()
        }),
{
}

/// Failure of a drop into another workspace.
#[derive(Debug, Clone, PartialEq, Eq)]
pub enum CrossWorkspaceError {
    /// Not the drop command.
    UnknownCommand(String),
    /// The drop command has no owner.
    Unregistered(String),
    /// The leaf is not in the source tree.
    SourceNotFound(ViewId),
    /// The anchor is not in the destination tree.
    AnchorNotFound(ViewId),
    /// The destination tree holds as many leaves as it may.
    DestinationFull { max: usize },
}

impl CrossWorkspaceError {
    /// The message of the error.
    pub open spec fn spelled(self) -> Seq<char> {
        match self {
            CrossWorkspaceError::UnknownCommand(cmd) => "unknown workspace drop command: "@ + cmd@,
            CrossWorkspaceError::Unregistered(cmd) => "workspace drop command not registered: "@
                + cmd@,
            CrossWorkspaceError::SourceNotFound(id) => "workspace drop source not found: "@
                + id.spelled(),
            CrossWorkspaceError::AnchorNotFound(id) => "workspace drop anchor not found: "@
                + id.spelled(),
            CrossWorkspaceError::DestinationFull { max } =>
                "workspace drop destination full (max "@ + text::decimal(max as nat) + ")"@,
        }
    }

    /// Spells the error.
    #[must_use]
    pub fn text(&self) -> (out: String)
        ensures
            out@ == self.spelled(),
    {
        match self {
            Self::UnknownCommand(cmd) => text::joined(
                "unknown workspace drop command: ",
                cmd.as_str(),
            ),
            Self::Unregistered(cmd) => text::joined(
                "workspace drop command not registered: ",
                cmd.as_str(),
            ),
            Self::SourceNotFound(id) => text::joined(
                "workspace drop source not found: ",
                id.text().as_str(),
            ),
            Self::AnchorNotFound(id) => text::joined(
                "workspace drop anchor not found: ",
                id.text().as_str(),
            ),
            Self::DestinationFull { max } => text::tagged_number(
                "workspace drop destination full (max ",
                *max as u64,
                ")",
            ),
        }
    }
}

/// Hit-tests `point` against the destination tree.
#[must_use]
pub fn workspace_drop_target(dst: &LayoutNode, bounds: Rect, gaps: Gaps, point: Point) -> (hit:
    Option<ViewId>)
    ensures
        hit == tree::top_hit(
            dst.tree().allocate(bounds, geometry::inset(bounds, gaps.outer), gaps.inner),
            point,
        ),
{
    dst.hit_test_leaf(bounds, gaps, point)
}

/// Moves a leaf from `src` into `dst`. The command name, its owner, the leaf,
/// the anchor and the bound of the destination are checked in this order. On
/// success both histories hold the trees as they were.
pub fn move_leaf_to_workspace(
    src: &mut LayoutNode,
    src_history: &mut DragHistory,
    dst: &mut LayoutNode,
    dst_history: &mut DragHistory,
    registry: &CommandRegistry,
    command: &str,
    drop: CrossWorkspaceDrop,
) -> (r: Result<(), CrossWorkspaceError>)
    requires
        old(src_history).wf(),
        old(dst_history).wf(),
    ensures
        final(src_history).wf(),
        final(dst_history).wf(),
        match r {
            Ok(_) => {
                &&& routed(*registry, command@, WORKSPACE_DROP_CMD@)
                &&& old(src).tree().has(drop.id)
                &&& old(dst).tree().has(drop.anchor.target)
                &&& old(dst).tree().leaves().len() < MAX_VIEWS_PER_WORKSPACE_TREE
                &&& final(src).tree() == old(src).tree().pruned(drop.id)
                &&& final(dst).tree() == old(dst).tree().beside(
                    drop.anchor.target,
                    tree::first_view(old(src).tree().leaves(), drop.id)->Some_0,
                    drop.anchor.axis,
                    drop.anchor.ratio@,
                    drop.anchor.after,
                )
                &&& final(src_history)@ == recorded(old(src_history)@, old(src).tree())
                &&& final(dst_history)@ == recorded(old(dst_history)@, old(dst).tree())
            },
            Err(e) => {
                &&& final(src).tree() == old(src).tree()
                &&& final(dst).tree() == old(dst).tree()
                &&& final(src_history)@ == old(src_history)@
                &&& final(dst_history)@ == old(dst_history)@
                &&& match e {
                    CrossWorkspaceError::UnknownCommand(c) => command@ != WORKSPACE_DROP_CMD@ && c@
                        == command@,
                    CrossWorkspaceError::Unregistered(c) => command@ == WORKSPACE_DROP_CMD@
                        && !routed(*registry, command@, WORKSPACE_DROP_CMD@) && c@ == command@,
                    CrossWorkspaceError::SourceNotFound(id) => routed(
                        *registry,
                        command@,
                        WORKSPACE_DROP_CMD@,
                    ) && id == drop.id && !old(src).tree().has(id),
                    CrossWorkspaceError::AnchorNotFound(id) => routed(
                        *registry,
                        command@,
                        WORKSPACE_DROP_CMD@,
                    ) && old(src).tree().has(drop.id) && id == drop.anchor.target && !old(dst).tree().has(id),
                    CrossWorkspaceError::DestinationFull { max } => routed(
                        *registry,
                        command@,
                        WORKSPACE_DROP_CMD@,
                    ) && old(src).tree().has(drop.id) && old(dst).tree().has(drop.anchor.target)
                        && old(dst).tree().leaves().len() >= max && max
                        == MAX_VIEWS_PER_WORKSPACE_TREE,
                }
            },
        },
{
    if !text::same_text(command, WORKSPACE_DROP_CMD) {
        return Err(CrossWorkspaceError::UnknownCommand(command.to_owned()));
    }
    if registry.owner_of(command).is_none() {
        return Err(CrossWorkspaceError::Unregistered(command.to_owned()));
    }
    if src.find_leaf(drop.id).is_none() {
        return Err(CrossWorkspaceError::SourceNotFound(drop.id));
    }
    if dst.find_leaf(drop.anchor.target).is_none() {
        return Err(CrossWorkspaceError::AnchorNotFound(drop.anchor.target));
    }
    if dst.leaf_count() >= MAX_VIEWS_PER_WORKSPACE_TREE {
        return Err(CrossWorkspaceError::DestinationFull { max: MAX_VIEWS_PER_WORKSPACE_TREE });
    }
    src_history.push(src);
    dst_history.push(dst);
    if let Some(view) = src.remove_leaf(drop.id) {
        let anchor = drop.anchor;
        let _docked: bool = dst.insert_beside(
            anchor.target,
            &view,
            anchor.axis,
            anchor.ratio,
            anchor.after,
        );
    }
    Ok(())
}

/// A drop into another workspace takes one leaf from the source and adds it to
/// the destination: no leaf is lost, none appears twice, and the destination
/// stays within its bound.
pub proof fn dropping_transfers_one_leaf(
    src: Tree,
    dst: Tree,
    id: ViewId,
    target: ViewId,
    axis: SplitAxis,
    ratio: u32,
    after: bool,
)
    requires
        src.has(id),
        dst.has(target),
        dst.leaves().len() < MAX_VIEWS_PER_WORKSPACE_TREE,
    ensures
        ({
            let view = tree::first_view(src.leaves(), id)->Some_0;
            let left = src.pruned(id).leaves();
            let joined = dst.beside(target, view, axis, ratio, after).leaves();
            &&& joined.len() <= MAX_VIEWS_PER_WORKSPACE_TREE
            &&& left.to_multiset().insert(view) == src.leaves().to_multiset()
            &&& joined.to_multiset() == dst.leaves().to_multiset().insert(view)
        }),
{
    broadcast use vstd::seq_lib::group_to_multiset_ensures;

    let view = tree::first_view(src.leaves(), id)->Some_0;
    tree_laws::first_position_is_first(src.leaves(), id);
    tree_laws::first_position_is_first(dst.leaves(), target);
    tree_laws::pruning_removes_one_leaf(src, id);
    tree_laws::docking_inserts_one_leaf(dst, target, view, axis, ratio, after);
    assert(src.pruned(id).leaves().to_multiset().insert(view) =~= src.leaves().to_multiset());
    assert(dst.beside(target, view, axis, ratio, after).leaves().to_multiset()
        =~= dst.leaves().to_multiset().insert(view));
}

/// The last 32 trees are kept, the oldest of them given up first.
pub proof fn thirty_two_trees_are_kept(history: Seq<Tree>, t: Tree)
    requires
        history.len() <= 32,
    ensures
        ({
            let after = recorded(history, t);
            &&& after.len() == (if history.len() < 32 {
                history.len() + 1
            } else {
                32
            })
            &&& after.last() == t
            &&& forall|k: int|
                0 <= k < after.len() - 1 ==> #[trigger] after[k] == history[history.len()
                    - after.len() + 1 + k]
        }),
{
}

/// A drag is routed when it names the expected command and that command is bound.
pub proof fn drags_name_a_bound_command(
    registry: CommandRegistry,
    command: Seq<char>,
    expected: Seq<char>,
)
    ensures
        routed(registry, command, expected) <==> command == expected && exists|i: int|
            0 <= i < registry.bindings().len() && (#[trigger] registry.bindings()[i]).command
                == command,
{
    let all = registry.bindings();
    let p = panel_command::binds(command);
    seqs::first_where_is_first(all, p);
    let k = seqs::first_where(all, p);
    if k < all.len() {
        assert(all[k].command == command);
    } else {
        assert forall|i: int| 0 <= i < all.len() implies (#[trigger] all[i]).command
            != command by {
            assert(!p(all[i]));
        }
    }
}

/// A resized rectangle, wherever it lies: its moved border goes with the pointer
/// and stays one cell from the other border, and both are brought into the
/// container, one cell apart.
pub proof fn resized_borders_come_into_the_container(
    current: Rect,
    edge: ResizeEdge,
    dx: i16,
    dy: i16,
    container: Rect,
)
    requires
        container.x + container.width <= 65535,
        container.y + container.height <= 65535,
    ensures
        ({
            let r = floating_resized(current, edge, dx, dy, container);
            let within = |v: int, low: int, high: int|
                if v < low {
                    low
                } else if v > high {
                    high
                } else {
                    v
                };
            let on_left = edge is Left || edge is TopLeft || edge is BottomLeft;
            let on_right = edge is Right || edge is TopRight || edge is BottomRight;
            let on_top = edge is Top || edge is TopLeft || edge is TopRight;
            let on_bottom = edge is Bottom || edge is BottomLeft || edge is BottomRight;
            let near = |lo: int, hi: int, moved: bool, d: int|
                if moved && lo + d < hi {
                    lo + d
                } else if moved {
                    hi - 1
                } else {
                    lo
                };
            let far = |lo: int, hi: int, moved: bool, held: bool, d: int|
                if held {
                    hi
                } else if moved && hi + d > lo {
                    hi + d
                } else if !moved && hi > lo {
                    hi
                } else {
                    lo + 1
                };
            let (x, y) = (current.x as int, current.y as int);
            let (right, bottom) = (x + current.width, y + current.height);
            let (from_x, to_x) = (container.x as int, container.x + container.width);
            let (from_y, to_y) = (container.y as int, container.y + container.height);
            &&& container.width == 0 ==> r.width == 0
            &&& container.height == 0 ==> r.height == 0
            &&& container.width > 0 ==> r.x == within(
                near(x, right, on_left, dx as int),
                from_x,
                to_x - 1,
            ) && r.x + r.width == within(
                far(x, right, on_right, on_left, dx as int),
                from_x + 1,
                to_x,
            )
            &&& container.height > 0 ==> r.y == within(
                near(y, bottom, on_top, dy as int),
                from_y,
                to_y - 1,
            ) && r.y + r.height == within(
                far(y, bottom, on_bottom, on_top, dy as int),
                from_y + 1,
                to_y,
            )
        }),
{
}

} // verus!
