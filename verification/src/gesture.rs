//! Pointer gestures as transactions, and the one meaning of a command whatever
//! surface it is invoked from.

use crate::drag;
use crate::drag::{DragHistory, DropSpec};
use crate::float32::Float32;
use crate::geometry;
use crate::geometry::{Gaps, Point, Rect, SplitAxis};
use crate::layout::LayoutNode;
use crate::layout_edit;
use crate::panel::PanelId;
use crate::panel_command;
use crate::panel_command::{CommandRegistry, QualifiedCommand};
use crate::seqs;
use crate::text;
use crate::tree;
use crate::view::ViewId;
use vstd::prelude::*;
use vstd::string::*;

verus! {

/// Phase of a gesture that is not settled.
#[derive(Debug, Clone, Copy, PartialEq, Eq, Structural, Hash)]
pub enum GesturePhase {
    /// Lifted; nothing was hovered yet.
    Lifted,
    /// At least one hover was recorded.
    Previewing,
}

/// How a gesture settled.
#[derive(Debug, Clone, Copy, PartialEq, Eq, Structural, Hash)]
pub enum GestureOutcome {
    /// The move was committed.
    Committed,
    /// The gesture was cancelled.
    Cancelled,
}

/// Failure of a gesture. Every failure leaves tree and history untouched.
#[derive(Debug, Clone, PartialEq, Eq)]
pub enum GestureError {
    /// The gesture started without the modifier.
    ModNotHeld,
    /// The bound command is malformed.
    MalformedCommand(String),
    /// The bound command has no owner.
    Unregistered(String),
    /// The dragged leaf is not in the tree.
    SourceNotFound(ViewId),
    /// The drop target is not in the tree.
    TargetNotFound(ViewId),
    /// A leaf was dropped on itself.
    SelfDrop,
}

impl GestureError {
    /// The message of the error.
    pub open spec fn spelled(self) -> Seq<char> {
        match self {
            GestureError::ModNotHeld => "gesture requires Mod held"@,
            GestureError::MalformedCommand(cmd) => "malformed gesture command: "@ + cmd@,
            GestureError::Unregistered(cmd) => "gesture command not registered: "@ + cmd@,
            GestureError::SourceNotFound(id) => "gesture source not found: "@ + id.spelled(),
            GestureError::TargetNotFound(id) => "gesture target not found: "@ + id.spelled(),
            GestureError::SelfDrop => "gesture source and target are the same leaf"@,
        }
    }

    /// Spells the error.
    #[must_use]
    pub fn text(&self) -> (out: String)
        ensures
            out@ == self.spelled(),
    {
        match self {
            Self::ModNotHeld => "gesture requires Mod held".to_owned(),
            Self::MalformedCommand(cmd) => text::joined(
                "malformed gesture command: ",
                cmd.as_str(),
            ),
            Self::Unregistered(cmd) => text::joined(
                "gesture command not registered: ",
                cmd.as_str(),
            ),
            Self::SourceNotFound(id) => text::joined(
                "gesture source not found: ",
                id.text().as_str(),
            ),
            Self::TargetNotFound(id) => text::joined(
                "gesture target not found: ",
                id.text().as_str(),
            ),
            Self::SelfDrop => "gesture source and target are the same leaf".to_owned(),
        }
    }
}

/// A leaf that the dragged one may dock beside.
#[derive(Debug, Clone, Copy, PartialEq, Eq, Structural, Hash)]
pub struct DropTarget {
    /// The anchor leaf.
    pub anchor: ViewId,
}

impl DropTarget {
    /// Creates a drop target.
    #[must_use]
    pub fn new(anchor: ViewId) -> (t: Self)
        ensures
            t == (DropTarget { anchor }),
    {
        Self { anchor }
    }

    /// Builds the docking plan for a commit.
    #[must_use]
    pub fn docking(self, axis: SplitAxis, ratio: Float32, after: bool) -> (d: DropSpec)
        ensures
            d == (DropSpec { target: self.anchor, axis, ratio, after }),
    {
        DropSpec::new(self.anchor, axis, ratio, after)
    }
}

/// The condition of being a leaf other than `source`.
pub open spec fn other_leaf(source: ViewId) -> spec_fn(ViewId) -> bool {
    |id: ViewId| id != source
}

/// Gesture in progress: lift, preview, then commit or cancel.
#[derive(Debug, PartialEq, Eq)]
pub struct GestureTransaction {
    source: ViewId,
    command: String,
    preview: Option<ViewId>,
    phase: GesturePhase,
}

impl GestureTransaction {
    /// The dragged leaf.
    pub closed spec fn dragged(self) -> ViewId {
        self.source
    }

    /// The command that the commit goes through.
    pub closed spec fn bound(self) -> Seq<char> {
        self.command@
    }

    /// The leaf hovered last.
    pub closed spec fn hovered(self) -> Option<ViewId> {
        self.preview
    }

    /// The current phase.
    pub closed spec fn stage(self) -> GesturePhase {
        self.phase
    }

    /// Lifts a gesture: the modifier has to be held and the command has to be
    /// well-formed. Its owner is looked up on commit.
    pub fn lift(source: ViewId, mod_held: bool, command: &str) -> (r: Result<Self, GestureError>)
        ensures
            match r {
                Ok(g) => mod_held && panel_command::command_fault(command@) is None && g.dragged()
                    == source && g.bound() == command@ && g.hovered() is None && g.stage()
                    == GesturePhase::Lifted,
                Err(GestureError::ModNotHeld) => !mod_held,
                Err(GestureError::MalformedCommand(c)) => mod_held && panel_command::command_fault(
                    command@,
                ) is Some && c@ == command@,
                Err(_) => false,
            },
    {
        if !mod_held {
            return Err(GestureError::ModNotHeld);
        }
        if QualifiedCommand::parse(command).is_err() {
            return Err(GestureError::MalformedCommand(command.to_owned()));
        }
        Ok(
            Self {
                source,
                command: command.to_owned(),
                preview: None,
                phase: GesturePhase::Lifted,
            },
        )
    }

    /// The dragged leaf.
    #[must_use]
    pub fn source(&self) -> (id: ViewId)
        ensures
            id == self.dragged(),
    {
        self.source
    }

    /// The command that the commit goes through.
    #[must_use]
    pub fn command(&self) -> (s: &str)
        ensures
            s@ == self.bound(),
    {
        self.command.as_str()
    }

    /// The current phase.
    #[must_use]
    pub fn phase(&self) -> (p: GesturePhase)
        ensures
            p == self.stage(),
    {
        self.phase
    }

    /// The leaf hovered last, if any.
    #[must_use]
    pub fn preview_target(&self) -> (id: Option<ViewId>)
        ensures
            id == self.hovered(),
    {
        self.preview
    }

    /// Hit-tests `point` and remembers the hovered leaf.
    pub fn update_preview(
        &mut self,
        tree: &LayoutNode,
        bounds: Rect,
        gaps: Gaps,
        point: Point,
    ) -> (hit: Option<ViewId>)
        ensures
            hit == tree::top_hit(
                tree.tree().allocate(bounds, geometry::inset(bounds, gaps.outer), gaps.inner),
                point,
            ),
            final(self).hovered() == hit,
            final(self).stage() == GesturePhase::Previewing,
            final(self).dragged() == old(self).dragged(),
            final(self).bound() == old(self).bound(),
    {
        let hit = tree.hit_test_leaf(bounds, gaps, point);
        self.preview = hit;
        self.phase = GesturePhase::Previewing;
        hit
    }

    /// Every leaf but the dragged one, in depth-first order.
    #[must_use]
    pub fn drop_targets(&self, tree: &LayoutNode) -> (out: Vec<DropTarget>)
        ensures
            out@.map_values(|t: DropTarget| t.anchor) == seqs::kept(
                tree.tree().ids(),
                other_leaf(self.dragged()),
            ),
    {
        let ids = tree.leaf_ids();
        let mut out: Vec<DropTarget> = Vec::new();
        let mut i: usize = 0;
        assert(out@.map_values(|t: DropTarget| t.anchor) =~= seqs::kept(
            ids@.take(0),
            other_leaf(self.dragged()),
        ));
        while i < ids.len()
            invariant
                0 <= i <= ids.len(),
                out@.map_values(|t: DropTarget| t.anchor) == seqs::kept(
                    ids@.take(i as int),
                    other_leaf(self.dragged()),
                ),
            decreases ids.len() - i,
        {
            let ghost before = out@;
            assert(ids@.take(i + 1).drop_last() =~= ids@.take(i as int));
            if ids[i] != self.source {
                out.push(DropTarget::new(ids[i]));
                assert(out@.map_values(|t: DropTarget| t.anchor) =~= before.map_values(
                    |t: DropTarget| t.anchor,
                ).push(ids@[i as int]));
            }
            i = i + 1;
        }
        assert(ids@.take(i as int) =~= ids@);
        out
    }

    /// Settles the gesture without touching anything.
    #[must_use]
    pub fn cancel(self) -> (outcome: GestureOutcome)
        ensures
            outcome == GestureOutcome::Cancelled,
    {
        GestureOutcome::Cancelled
    }

    /// Commits the move: checks the owner of the bound command, that the leaf
    /// is not dropped on itself, the dragged leaf and the target, in this
    /// order; then records a snapshot and moves the leaf.
    pub fn commit(
        self,
        tree: &mut LayoutNode,
        history: &mut DragHistory,
        registry: &CommandRegistry,
        drop: DropSpec,
    ) -> (r: Result<GestureOutcome, GestureError>)
        requires
            old(history).wf(),
        ensures
            final(history).wf(),
            match r {
                Ok(outcome) => {
                    &&& outcome == GestureOutcome::Committed
                    &&& panel_command::owner_in(registry.bindings(), self.bound()) is Some
                    &&& layout_edit::can_reparent(old(tree).tree(), self.dragged(), drop.target)
                    &&& final(tree).tree() == layout_edit::reparented(
                        old(tree).tree(),
                        self.dragged(),
                        drop.target,
                        drop.axis,
                        drop.ratio@,
                        drop.after,
                    )
                    &&& final(history)@ == drag::recorded(old(history)@, old(tree).tree())
                },
                Err(e) => {
                    &&& final(tree).tree() == old(tree).tree()
                    &&& final(history)@ == old(history)@
                    &&& match e {
                        GestureError::Unregistered(c) => panel_command::owner_in(
                            registry.bindings(),
                            self.bound(),
                        ) is None && c@ == self.bound(),
                        GestureError::SelfDrop => panel_command::owner_in(
                            registry.bindings(),
                            self.bound(),
                        ) is Some && self.dragged() == drop.target,
                        GestureError::SourceNotFound(id) => panel_command::owner_in(
                            registry.bindings(),
                            self.bound(),
                        ) is Some && self.dragged() != drop.target && id == self.dragged() && !old(tree).tree().has(id),
                        GestureError::TargetNotFound(id) => panel_command::owner_in(
                            registry.bindings(),
                            self.bound(),
                        ) is Some && self.dragged() != drop.target && old(tree).tree().has(
                            self.dragged(),
                        ) && id == drop.target && !old(tree).tree().has(id),
                        GestureError::ModNotHeld => false,
                        GestureError::MalformedCommand(_) => false,
                    }
                },
            },
    {
        if registry.owner_of(self.command.as_str()).is_none() {
            return Err(GestureError::Unregistered(self.command));
        }
        if self.source == drop.target {
            return Err(GestureError::SelfDrop);
        }
        if tree.find_leaf(self.source).is_none() {
            return Err(GestureError::SourceNotFound(self.source));
        }
        if tree.find_leaf(drop.target).is_none() {
            return Err(GestureError::TargetNotFound(drop.target));
        }
        history.push(tree);
        let _moved: bool = tree.reparent_leaf(
            self.source,
            drop.target,
            drop.axis,
            drop.ratio,
            drop.after,
        );
        Ok(GestureOutcome::Committed)
    }
}

impl Clone for GestureTransaction {
    fn clone(&self) -> (g: Self)
        ensures
            g.dragged() == self.dragged(),
            g.bound() == self.bound(),
            g.hovered() == self.hovered(),
            g.stage() == self.stage(),
    {
        Self {
            source: self.source,
            command: self.command.clone(),
            preview: self.preview,
            phase: self.phase,
        }
    }
}

/// Surface that a workspace command is invoked from.
#[derive(Debug, Clone, Copy, PartialEq, Eq, Structural, Hash)]
pub enum CommandOrigin {
    /// Pointer gesture.
    Gesture,
    /// Keybinding.
    Keyboard,
    /// Palette entry.
    Palette,
    /// Command line.
    Cli,
    /// Message from another process.
    Ipc,
    /// Tool call of an agent.
    Agent,
}

impl CommandOrigin {
    /// Every origin.
    pub const ALL: [CommandOrigin; 6] = [
        CommandOrigin::Gesture,
        CommandOrigin::Keyboard,
        CommandOrigin::Palette,
        CommandOrigin::Cli,
        CommandOrigin::Ipc,
        CommandOrigin::Agent,
    ];

    /// The name of the surface.
    pub open spec fn spelled(self) -> Seq<char> {
        match self {
            CommandOrigin::Gesture => "gesture"@,
            CommandOrigin::Keyboard => "keyboard"@,
            CommandOrigin::Palette => "palette"@,
            CommandOrigin::Cli => "cli"@,
            CommandOrigin::Ipc => "ipc"@,
            CommandOrigin::Agent => "agent"@,
        }
    }

    /// Stable surface name.
    #[must_use]
    pub fn as_str(self) -> (s: &'static str)
        ensures
            s@ == self.spelled(),
    {
        match self {
            Self::Gesture => "gesture",
            Self::Keyboard => "keyboard",
            Self::Palette => "palette",
            Self::Cli => "cli",
            Self::Ipc => "ipc",
            Self::Agent => "agent",
        }
    }

    /// Spells the origin for messages.
    #[must_use]
    pub fn text(self) -> (out: String)
        ensures
            out@ == self.spelled(),
    {
        self.as_str().to_owned()
    }
}

/// One invocation of a command from one origin.
#[derive(Debug, Clone, Copy, PartialEq, Eq, Hash)]
pub struct CommandInvocation<'a> {
    /// The `owner.name:command` string.
    pub command: &'a str,
    /// How the string arrived.
    pub origin: CommandOrigin,
}

impl<'a> CommandInvocation<'a> {
    /// Creates an invocation.
    #[must_use]
    pub fn new(command: &'a str, origin: CommandOrigin) -> (i: Self)
        ensures
            i.command == command,
            i.origin == origin,
    {
        Self { command, origin }
    }
}

/// Failure to resolve an invocation.
#[derive(Debug, Clone, PartialEq, Eq)]
pub enum EquivalenceError {
    /// The command is malformed.
    Malformed(String),
    /// The command has no owner.
    Unregistered(String),
    /// Two origins gave different owners.
    Diverged {
        origin_a: CommandOrigin,
        owner_a: PanelId,
        origin_b: CommandOrigin,
        owner_b: PanelId,
    },
}

impl EquivalenceError {
    /// The message of the error.
    pub open spec fn spelled(self) -> Seq<char> {
        match self {
            EquivalenceError::Malformed(cmd) => "malformed command: "@ + cmd@,
            EquivalenceError::Unregistered(cmd) => "command not registered: "@ + cmd@,
            EquivalenceError::Diverged { origin_a, owner_a, origin_b, owner_b } =>
                "command diverged: "@ + origin_a.spelled() + " owned by "@ + owner_a.spelled()
                + ", "@ + origin_b.spelled() + " owned by "@ + owner_b.spelled(),
        }
    }

    /// Spells the error.
    #[must_use]
    pub fn text(&self) -> (out: String)
        ensures
            out@ == self.spelled(),
    {
        match self {
            Self::Malformed(cmd) => text::joined("malformed command: ", cmd.as_str()),
            Self::Unregistered(cmd) => text::joined("command not registered: ", cmd.as_str()),
            Self::Diverged { origin_a, owner_a, origin_b, owner_b } => {
                let mut out = text::joined3("command diverged: ", origin_a.as_str(), " owned by ");
                out.append(owner_a.text().as_str());
                out.append(", ");
                out.append(origin_b.as_str());
                out.append(" owned by ");
                out.append(owner_b.text().as_str());
                out
            },
        }
    }
}

/// What a command resolves to: its owner, when it is well-formed and has one.
/// The origin plays no part.
pub open spec fn resolves(
    registry: CommandRegistry,
    command: Seq<char>,
    r: Result<PanelId, EquivalenceError>,
) -> bool {
    match r {
        Ok(owner) => panel_command::command_fault(command) is None && panel_command::owner_in(
            registry.bindings(),
            command,
        ) == Some(owner),
        Err(EquivalenceError::Malformed(c)) => panel_command::command_fault(command) is Some && c@
            == command,
        Err(EquivalenceError::Unregistered(c)) => panel_command::command_fault(command) is None
            && panel_command::owner_in(registry.bindings(), command) is None && c@ == command,
        Err(EquivalenceError::Diverged { .. }) => false,
    }
}

/// Resolves an invocation to the owner of its command.
pub fn resolve_invocation(registry: &CommandRegistry, invocation: &CommandInvocation<'_>) -> (r:
    Result<PanelId, EquivalenceError>)
    ensures
        resolves(*registry, invocation.command@, r),
{
    if QualifiedCommand::parse(invocation.command).is_err() {
        return Err(EquivalenceError::Malformed(invocation.command.to_owned()));
    }
    match registry.owner_of(invocation.command) {
        Some(owner) => Ok(owner),
        None => Err(EquivalenceError::Unregistered(invocation.command.to_owned())),
    }
}

/// Whatever origins two invocations of a command come from, they resolve to the
/// same owner or fail with the same message.
pub proof fn origins_agree(
    registry: CommandRegistry,
    command: Seq<char>,
    a: Result<PanelId, EquivalenceError>,
    b: Result<PanelId, EquivalenceError>,
)
    requires
        resolves(registry, command, a),
        resolves(registry, command, b),
    ensures
        match (a, b) {
            (Ok(x), Ok(y)) => x == y,
            (Err(x), Err(y)) => x.spelled() == y.spelled(),
            _ => false,
        },
{
}

/// Resolves a command from every origin and requires one owner. The origins
/// never disagree.
pub fn verify_origin_equivalence(registry: &CommandRegistry, command: &str) -> (r: Result<
    PanelId,
    EquivalenceError,
>)
    ensures
        resolves(*registry, command@, r),
{
    let first = match resolve_invocation(
        registry,
        &CommandInvocation::new(command, CommandOrigin::Gesture),
    ) {
        Ok(owner) => owner,
        Err(e) => return Err(e),
    };
    let all = CommandOrigin::ALL;
    let mut i: usize = 1;
    while i < 6
        invariant
            resolves(*registry, command@, Ok(first)),
        decreases 6 - i,
    {
        let origin = all[i];
        match resolve_invocation(registry, &CommandInvocation::new(command, origin)) {
            Err(e) => return Err(e),
            Ok(owner) => {
                if owner != first {
                    return Err(
                        EquivalenceError::Diverged {
                            origin_a: CommandOrigin::Gesture,
                            owner_a: first,
                            origin_b: origin,
                            owner_b: owner,
                        },
                    );
                }
            },
        }
        i = i + 1;
    }
    Ok(first)
}

/// A command resolves to the panel that it is bound to; one that does not follow
/// the grammar is malformed, and one that nobody bound is unregistered.
pub proof fn commands_resolve_to_their_owner(
    registry: CommandRegistry,
    command: Seq<char>,
    r: Result<PanelId, EquivalenceError>,
    k: int,
)
    requires
        resolves(registry, command, r),
    ensures
        r is Ok <==> panel_command::command_fault(command) is None && exists|i: int|
            0 <= i < registry.bindings().len() && (#[trigger] registry.bindings()[i]).command
                == command,
        registry.wf() && 0 <= k < registry.bindings().len() && registry.bindings()[k].command
            == command && r is Ok ==> r->Ok_0 == registry.bindings()[k].owner,
        panel_command::command_fault(command) is Some ==> (r matches Err(
            EquivalenceError::Malformed(c),
        ) && c@ == command),
        panel_command::command_fault(command) is None && r is Err ==> (r matches Err(
            EquivalenceError::Unregistered(c),
        ) && c@ == command),
{
    let all = registry.bindings();
    let p = panel_command::binds(command);
    seqs::first_where_is_first(all, p);
    let q = seqs::first_where(all, p);
    if q < all.len() {
        assert(all[q].command == command);
    } else {
        assert forall|i: int| 0 <= i < all.len() implies (#[trigger] all[i]).command
            != command by {
            assert(!p(all[i]));
        }
    }
    if registry.wf() && 0 <= k < all.len() && all[k].command == command {
        assert(p(all[k]));
        if q < k {
            assert(all[q].command != all[k].command);
        }
    }
}

/// A leaf may be dropped on every leaf but itself, in leaf order.
pub proof fn leaves_drop_on_the_others(ids: Seq<ViewId>, source: ViewId)
    ensures
        seqs::kept(ids, other_leaf(source)) == ids.filter(|id: ViewId| id != source),
{
    seqs::keeping_filters(ids, other_leaf(source));
    assert(other_leaf(source) =~= (|id: ViewId| id != source));
}

} // verus!
