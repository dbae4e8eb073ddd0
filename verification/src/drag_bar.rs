//! Dragging a panel onto the bar: drop zones, one drag from lift to
//! settlement, and bounded undo.

use crate::panel;
use crate::panel::PanelId;
use crate::panel_command;
use crate::panel_command::{CommandRegistry, QualifiedCommand};
use crate::text;
use vstd::prelude::*;
use vstd::string::*;

verus! {

/// Cells on each edge of the bar that mean a new workspace.
pub const BAR_EDGE_CELLS: u16 = 3;

/// Most workspaces of a bar.
pub const MAX_BAR_WORKSPACES: usize = 16;

/// Most undo entries.
pub const MAX_BAR_UNDO: usize = 16;

/// Workspace command of a move.
pub const BAR_MOVE_CMD: &'static str = "bitty.workspace:bar-move";

/// Workspace command of a drop on a new workspace.
pub const BAR_SPLIT_CMD: &'static str = "bitty.workspace:bar-split";

/// Drop zone of the bar.
#[derive(Debug, Clone, Copy, PartialEq, Eq, Structural, Hash)]
pub enum BarZone {
    /// Center: move the panel and switch to its workspace.
    MoveSwitch,
    /// Edge: drop on a new workspace.
    NewWorkspace,
}

impl BarZone {
    /// The name of the zone.
    pub open spec fn spelled(self) -> Seq<char> {
        match self {
            BarZone::MoveSwitch => "move-switch"@,
            BarZone::NewWorkspace => "new-workspace"@,
        }
    }

    /// The command of the zone.
    pub open spec fn required(self) -> Seq<char> {
        match self {
            BarZone::MoveSwitch => BAR_MOVE_CMD@,
            BarZone::NewWorkspace => BAR_SPLIT_CMD@,
        }
    }

    /// Canonical name.
    #[must_use]
    pub fn as_str(self) -> (s: &'static str)
        ensures
            s@ == self.spelled(),
    {
        match self {
            Self::MoveSwitch => "move-switch",
            Self::NewWorkspace => "new-workspace",
        }
    }

    /// The workspace command committed for the zone.
    #[must_use]
    pub fn command(self) -> (s: &'static str)
        ensures
            s@ == self.required(),
    {
        match self {
            Self::MoveSwitch => BAR_MOVE_CMD,
            Self::NewWorkspace => BAR_SPLIT_CMD,
        }
    }

    /// Spells the zone for messages.
    #[must_use]
    pub fn text(self) -> (out: String)
        ensures
            out@ == self.spelled(),
    {
        self.as_str().to_owned()
    }
}

/// The zone of the cell `x` of a bar. Beyond the bar there is none, and a bar
/// that its two edges would fill is all center.
pub open spec fn zone_at(width: u16, x: u16) -> Option<BarZone> {
    if x >= width {
        None
    } else if width > 2 * BAR_EDGE_CELLS && (x < BAR_EDGE_CELLS || x >= width - BAR_EDGE_CELLS) {
        Some(BarZone::NewWorkspace)
    } else {
        Some(BarZone::MoveSwitch)
    }
}

/// Classifies the pointer cell `x` over a bar of `width` cells. The edges never
/// swallow the move target.
#[must_use]
pub fn classify_bar_drop(width: u16, x: u16) -> (zone: Option<BarZone>)
    ensures
        zone == zone_at(width, x),
{
    if x >= width {
        return None;
    }
    if width > BAR_EDGE_CELLS * 2 && (x < BAR_EDGE_CELLS || x >= width - BAR_EDGE_CELLS) {
        return Some(BarZone::NewWorkspace);
    }
    Some(BarZone::MoveSwitch)
}

/// The zones of a bar are the same read from either end.
pub proof fn zones_are_symmetric(width: u16, x: u16)
    requires
        x < width,
    ensures
        zone_at(width, x) == zone_at(width, (width - 1 - x) as u16),
{
}

/// The edges never swallow the move target: every bar has a cell of it, the
/// middle one.
pub proof fn every_bar_has_a_move_target(width: u16)
    requires
        width >= 1,
    ensures
        zone_at(width, (width / 2) as u16) == Some(BarZone::MoveSwitch),
        exists|x: u16| x < width && #[trigger] zone_at(width, x) == Some(BarZone::MoveSwitch),
{
    assert(zone_at(width, (width / 2) as u16) == Some(BarZone::MoveSwitch));
}

/// Failure of a drop on the bar.
#[derive(Debug, Clone, PartialEq, Eq)]
pub enum BarError {
    /// The drag started without the modifier.
    ModNotHeld,
    /// The command is malformed.
    BadCommand(String),
    /// The command is not the one of the zone.
    UnexpectedCommand { found: String, expected: &'static str },
    /// The command has no owner.
    UnregisteredCommand(String),
    /// There are as many workspaces as there may be.
    WorkspaceCap { current: usize },
    /// Nothing was recorded.
    NothingToUndo,
    /// The panel is not in the order.
    UnknownPanel { panel: PanelId },
}

impl BarError {
    /// The message of the error.
    pub open spec fn spelled(self) -> Seq<char> {
        match self {
            BarError::ModNotHeld => "bar drag needs the modifier held"@,
            BarError::BadCommand(cmd) => "bad bar command: "@ + cmd@,
            BarError::UnexpectedCommand { found, expected } => "unexpected bar command '"@ + found@
                + "', expected '"@ + expected@ + "'"@,
            BarError::UnregisteredCommand(cmd) => "bar command not registered: "@ + cmd@,
            BarError::WorkspaceCap { current } => "bar workspace capacity reached: "@
                + text::decimal(current as nat),
            BarError::NothingToUndo => "no bar drop to undo"@,
            BarError::UnknownPanel { panel } => "bar order has no panel "@ + panel.spelled(),
        }
    }

    /// Spells the error.
    #[must_use]
    pub fn text(&self) -> (out: String)
        ensures
            out@ == self.spelled(),
    {
        match self {
            Self::ModNotHeld => "bar drag needs the modifier held".to_owned(),
            Self::BadCommand(cmd) => text::joined("bad bar command: ", cmd.as_str()),
            Self::UnexpectedCommand { found, expected } => {
                let mut out = text::joined3(
                    "unexpected bar command '",
                    found.as_str(),
                    "', expected '",
                );
                out.append(expected);
                out.append("'");
                out
            },
            Self::UnregisteredCommand(cmd) => text::joined(
                "bar command not registered: ",
                cmd.as_str(),
            ),
            Self::WorkspaceCap { current } => text::ending_number(
                "bar workspace capacity reached: ",
                *current as u64,
            ),
            Self::NothingToUndo => "no bar drop to undo".to_owned(),
            Self::UnknownPanel { panel } => text::joined(
                "bar order has no panel ",
                panel.text().as_str(),
            ),
        }
    }
}

/// Advisory preview of a hover.
#[derive(Debug, Clone, Copy, PartialEq, Eq, Structural, Hash)]
pub struct BarDropPreview {
    /// The zone under the pointer.
    pub zone: BarZone,
    /// The hovered workspace.
    pub workspace: u32,
}

/// How a drag settled.
#[derive(Debug, Clone, Copy, PartialEq, Eq, Structural, Hash)]
pub enum BarOutcome {
    /// The drop was committed.
    Committed(BarZone),
    /// The drag was cancelled.
    Cancelled,
}

/// What a commit changes: the order of the panels and the number of
/// workspaces.
pub ghost struct BarState {
    /// The panels in order.
    pub order: Seq<PanelId>,
    /// The number of workspaces.
    pub workspaces: int,
}

/// The state after a panel was dropped on a zone.
pub open spec fn dropped(state: BarState, panel: PanelId, zone: BarZone) -> BarState {
    BarState {
        order: panel::without_panel(state.order, panel).push(panel),
        workspaces: if zone == BarZone::NewWorkspace {
            state.workspaces + 1
        } else {
            state.workspaces
        },
    }
}

/// The undo entries after one more: the oldest one goes when there are too
/// many.
pub open spec fn remembered(entries: Seq<BarState>, state: BarState) -> Seq<BarState> {
    if entries.len() >= MAX_BAR_UNDO {
        entries.drop_first().push(state)
    } else {
        entries.push(state)
    }
}

/// Undoing right after a commit gives back the state before it.
pub proof fn undo_restores_the_state(entries: Seq<BarState>, state: BarState)
    ensures
        remembered(entries, state).last() == state,
        entries.len() < MAX_BAR_UNDO ==> remembered(entries, state).drop_last() == entries,
{
    if entries.len() < MAX_BAR_UNDO {
        assert(remembered(entries, state).drop_last() =~= entries);
    }
}

#[derive(Debug, PartialEq, Eq)]
struct BarUndoEntry {
    order: Vec<PanelId>,
    workspaces: usize,
}

/// Bounded undo of bar commits.
#[derive(Debug, PartialEq, Eq)]
pub struct BarUndoStack {
    entries: Vec<BarUndoEntry>,
}

impl View for BarUndoStack {
    type V = Seq<BarState>;

    closed spec fn view(&self) -> Seq<BarState> {
        self.entries@.map_values(
            |e: BarUndoEntry| BarState { order: e.order@, workspaces: e.workspaces as int },
        )
    }
}

impl BarUndoStack {
    /// The bound on the number of entries.
    pub open spec fn wf(self) -> bool {
        self@.len() <= MAX_BAR_UNDO
    }

    /// Creates an empty stack.
    #[must_use]
    pub fn new() -> (s: Self)
        ensures
            s.wf(),
            s@ == Seq::<BarState>::empty(),
    {
        let s = Self { entries: Vec::new() };
        assert(s@ =~= Seq::<BarState>::empty());
        s
    }

    /// Number of entries.
    #[must_use]
    pub fn len(&self) -> (n: usize)
        ensures
            n == self@.len(),
    {
        self.entries.len()
    }

    /// Whether nothing is stored.
    #[must_use]
    pub fn is_empty(&self) -> (empty: bool)
        ensures
            empty == (self@.len() == 0),
    {
        self.entries.len() == 0
    }

    fn push(&mut self, entry: BarUndoEntry)
        requires
            old(self).wf(),
        ensures
            final(self).wf(),
            final(self)@ == remembered(
                old(self)@,
                BarState { order: entry.order@, workspaces: entry.workspaces as int },
            ),
    {
        if self.entries.len() >= MAX_BAR_UNDO {
            let _oldest = self.entries.remove(0);
        }
        self.entries.push(entry);
        assert(self@ =~= remembered(
            old(self)@,
            BarState { order: entry.order@, workspaces: entry.workspaces as int },
        ));
    }

    fn pop_into(&mut self, order: &mut Vec<PanelId>, workspaces: &mut usize) -> (r: Result<
        (),
        BarError,
    >)
        requires
            old(self).wf(),
        ensures
            final(self).wf(),
            if old(self)@.len() > 0 {
                r is Ok && final(self)@ == old(self)@.drop_last() && final(order)@ == old(
                    self
                )@.last().order && *final(workspaces) == old(self)@.last().workspaces
            } else {
                r == Err::<(), BarError>(BarError::NothingToUndo) && final(self)@ == old(self)@
                    && final(order)@ == old(order)@ && *final(workspaces) == *old(workspaces)
            },
    {
        match self.entries.pop() {
            Some(entry) => {
                *order = entry.order;
                *workspaces = entry.workspaces;
                assert(self@ =~= old(self)@.drop_last());
                Ok(())
            },
            None => Err(BarError::NothingToUndo),
        }
    }
}

impl Default for BarUndoStack {
    fn default() -> (s: Self)
        ensures
            s.wf(),
            s@ == Seq::<BarState>::empty(),
    {
        Self::new()
    }
}

impl Clone for BarUndoStack {
    fn clone(&self) -> (s: Self)
        ensures
            s@ == self@,
    {
        let mut entries: Vec<BarUndoEntry> = Vec::new();
        let mut i: usize = 0;
        while i < self.entries.len()
            invariant
                0 <= i <= self.entries.len(),
                entries@.len() == i,
                forall|j: int|
                    0 <= j < i ==> (#[trigger] entries@[j]).order@ == self.entries@[j].order@
                        && entries@[j].workspaces == self.entries@[j].workspaces,
            decreases self.entries.len() - i,
        {
            let order = self.entries[i].order.clone();
            assert(order@ =~= self.entries@[i as int].order@);
            entries.push(BarUndoEntry { order, workspaces: self.entries[i].workspaces });
            i = i + 1;
        }
        let s = Self { entries };
        assert(s@ =~= self@);
        s
    }
}

/// Phase of a drag that is not settled.
#[derive(Debug, Clone, Copy, PartialEq, Eq, Structural, Hash)]
pub enum BarPhase {
    /// Lifted; nothing was hovered yet.
    Lifted,
    /// At least one hover was recorded.
    Previewing,
}

/// One drag onto the bar.
#[derive(Debug, PartialEq, Eq)]
pub struct BarDropSession {
    panel: PanelId,
    command: String,
    phase: BarPhase,
    preview: Option<BarDropPreview>,
}

impl BarDropSession {
    /// The dragged panel.
    pub closed spec fn dragged(self) -> PanelId {
        self.panel
    }

    /// The bound command.
    pub closed spec fn bound(self) -> Seq<char> {
        self.command@
    }

    /// The current phase.
    pub closed spec fn stage(self) -> BarPhase {
        self.phase
    }

    /// The last preview.
    pub closed spec fn hover(self) -> Option<BarDropPreview> {
        self.preview
    }

    /// Lifts a drag: the modifier has to be held and the command has to be
    /// well-formed.
    pub fn lift(panel: PanelId, mod_held: bool, command: &str) -> (r: Result<Self, BarError>)
        ensures
            match r {
                Ok(s) => mod_held && panel_command::command_fault(command@) is None && s.dragged()
                    == panel && s.bound() == command@ && s.stage() == BarPhase::Lifted && s.hover()
                    is None,
                Err(BarError::ModNotHeld) => !mod_held,
                Err(BarError::BadCommand(c)) => mod_held && panel_command::command_fault(
                    command@,
                ) is Some && c@ == command@,
                Err(_) => false,
            },
    {
        if !mod_held {
            return Err(BarError::ModNotHeld);
        }
        if QualifiedCommand::parse(command).is_err() {
            return Err(BarError::BadCommand(command.to_owned()));
        }
        Ok(Self { panel, command: command.to_owned(), phase: BarPhase::Lifted, preview: None })
    }

    /// The dragged panel.
    #[must_use]
    pub fn panel(&self) -> (id: PanelId)
        ensures
            id == self.dragged(),
    {
        self.panel
    }

    /// The current phase.
    #[must_use]
    pub fn phase(&self) -> (p: BarPhase)
        ensures
            p == self.stage(),
    {
        self.phase
    }

    /// The last preview, if any.
    #[must_use]
    pub fn preview(&self) -> (p: Option<BarDropPreview>)
        ensures
            p == self.hover(),
    {
        self.preview
    }

    /// Records a hover at the cell `x`; beyond the bar the preview is cleared.
    pub fn preview_hover(&mut self, width: u16, x: u16, workspace: u32)
        ensures
            final(self).hover() == match zone_at(width, x) {
                Some(zone) => Some(BarDropPreview { zone, workspace }),
                None => None,
            },
            final(self).stage() == BarPhase::Previewing,
            final(self).dragged() == old(self).dragged(),
            final(self).bound() == old(self).bound(),
    {
        self.preview = match classify_bar_drop(width, x) {
            Some(zone) => Some(BarDropPreview { zone, workspace }),
            None => None,
        };
        self.phase = BarPhase::Previewing;
    }

    /// Settles the drag without touching anything.
    #[must_use]
    pub fn cancel(self) -> (outcome: BarOutcome)
        ensures
            outcome == BarOutcome::Cancelled,
    {
        BarOutcome::Cancelled
    }

    /// Commits the previewed drop: checks the command of the zone, its owner,
    /// the panel and, for a new workspace, the capacity, in this order; then
    /// remembers the state and moves the panel to the end of the order.
    pub fn commit(
        self,
        registry: &CommandRegistry,
        order: &mut Vec<PanelId>,
        workspaces: &mut usize,
        undo: &mut BarUndoStack,
    ) -> (r: Result<BarOutcome, BarError>)
        requires
            old(undo).wf(),
        ensures
            final(undo).wf(),
            ({
                let before = BarState {
                    order: old(order)@,
                    workspaces: *old(workspaces) as int,
                };
                let after = BarState {
                    order: final(order)@,
                    workspaces: *final(workspaces) as int,
                };
                match r {
                    Ok(BarOutcome::Committed(zone)) => {
                        &&& self.hover() matches Some(p) && p.zone == zone
                        &&& self.bound() == zone.required()
                        &&& panel_command::owner_in(registry.bindings(), self.bound()) is Some
                        &&& before.order.contains(self.dragged())
                        &&& zone == BarZone::NewWorkspace ==> before.workspaces < MAX_BAR_WORKSPACES
                        &&& after == dropped(before, self.dragged(), zone)
                        &&& final(undo)@ == remembered(old(undo)@, before)
                    },
                    Ok(BarOutcome::Cancelled) => false,
                    Err(e) => {
                        &&& after == before
                        &&& final(undo)@ == old(undo)@
                        &&& match self.hover() {
                            None => e matches BarError::UnexpectedCommand { found, expected }
                                && found@ == self.bound() && expected@ == "previewed zone command"@,
                            Some(p) => if self.bound() != p.zone.required() {
                                e matches BarError::UnexpectedCommand { found, expected } && found@
                                    == self.bound() && expected@ == p.zone.required()
                            } else if panel_command::owner_in(
                                registry.bindings(),
                                self.bound(),
                            ) is None {
                                e matches BarError::UnregisteredCommand(c) && c@ == self.bound()
                            } else if !before.order.contains(self.dragged()) {
                                e == (BarError::UnknownPanel { panel: self.dragged() })
                            } else {
                                p.zone == BarZone::NewWorkspace && before.workspaces
                                    >= MAX_BAR_WORKSPACES && e == (BarError::WorkspaceCap {
                                    current: *old(workspaces),
                                })
                            },
                        }
                    },
                }
            }),
    {
        let preview = match self.preview {
            Some(p) => p,
            None => {
                return Err(
                    BarError::UnexpectedCommand {
                        found: self.command,
                        expected: "previewed zone command",
                    },
                );
            },
        };
        if !text::same_text(self.command.as_str(), preview.zone.command()) {
            return Err(
                BarError::UnexpectedCommand {
                    found: self.command,
                    expected: preview.zone.command(),
                },
            );
        }
        if registry.owner_of(self.command.as_str()).is_none() {
            return Err(BarError::UnregisteredCommand(self.command));
        }
        if !listed(order, self.panel) {
            return Err(BarError::UnknownPanel { panel: self.panel });
        }
        if preview.zone == BarZone::NewWorkspace && *workspaces >= MAX_BAR_WORKSPACES {
            return Err(BarError::WorkspaceCap { current: *workspaces });
        }
        let saved = order.clone();
        assert(saved@ =~= order@);
        undo.push(BarUndoEntry { order: saved, workspaces: *workspaces });
        *order = panel::others(order, self.panel);
        order.push(self.panel);
        if preview.zone == BarZone::NewWorkspace {
            *workspaces = *workspaces + 1;
        }
        Ok(BarOutcome::Committed(preview.zone))
    }
}

impl Clone for BarDropSession {
    fn clone(&self) -> (s: Self)
        ensures
            s.dragged() == self.dragged(),
            s.bound() == self.bound(),
            s.stage() == self.stage(),
            s.hover() == self.hover(),
    {
        Self {
            panel: self.panel,
            command: self.command.clone(),
            phase: self.phase,
            preview: self.preview,
        }
    }
}

fn listed(order: &Vec<PanelId>, panel: PanelId) -> (yes: bool)
    ensures
        yes == order@.contains(panel),
{
    let mut i: usize = 0;
    while i < order.len()
        invariant
            0 <= i <= order.len(),
            forall|j: int| 0 <= j < i ==> order@[j] != panel,
        decreases order.len() - i,
    {
        if order[i] == panel {
            return true;
        }
        i = i + 1;
    }
    false
}

/// Undoes the latest commit.
pub fn undo_bar_drop(
    undo: &mut BarUndoStack,
    order: &mut Vec<PanelId>,
    workspaces: &mut usize,
) -> (r: Result<(), BarError>)
    requires
        old(undo).wf(),
    ensures
        final(undo).wf(),
        if old(undo)@.len() > 0 {
            r is Ok && final(undo)@ == old(undo)@.drop_last() && final(order)@ == old(
                undo
            )@.last().order && *final(workspaces) == old(undo)@.last().workspaces
        } else {
            r == Err::<(), BarError>(BarError::NothingToUndo) && final(undo)@ == old(undo)@
                && final(order)@ == old(order)@ && *final(workspaces) == *old(workspaces)
        },
{
    undo.pop_into(order, workspaces)
}

/// A drop on one of the three outermost cells of a bar of more than six opens a
/// workspace; any other drop on the bar moves; one beside it does nothing.
pub proof fn bars_open_workspaces_at_their_ends(width: u16, x: u16)
    ensures
        x >= width <==> zone_at(width, x) is None,
        x < width && width <= 6 ==> zone_at(width, x) == Some(BarZone::MoveSwitch),
        x < width && width > 6 ==> (zone_at(width, x) == Some(BarZone::NewWorkspace) <==> x <= 2
            || x + 3 >= width),
{
}

/// A dropped panel goes to the end of the order, all others keep theirs, and the
/// workspaces grow by one exactly when a new one was asked for.
pub proof fn dropped_panels_go_to_the_end(state: BarState, panel: PanelId, zone: BarZone)
    ensures
        ({
            let after = dropped(state, panel, zone);
            let others = state.order.filter(|x: PanelId| x != panel);
            &&& after.order == others.push(panel)
            &&& after.workspaces == state.workspaces + (if zone == BarZone::NewWorkspace {
                1int
            } else {
                0
            })
        }),
{
    panel::other_panels_stay_listed(state.order, panel, panel);
}

/// The last sixteen states are remembered, the oldest of them forgotten first.
pub proof fn sixteen_states_are_remembered(entries: Seq<BarState>, state: BarState)
    requires
        entries.len() <= 16,
    ensures
        ({
            let after = remembered(entries, state);
            &&& after.len() == (if entries.len() < 16 {
                entries.len() + 1
            } else {
                16
            })
            &&& after.last() == state
            &&& forall|k: int|
                0 <= k < after.len() - 1 ==> #[trigger] after[k] == entries[entries.len()
                    - after.len() + 1 + k]
        }),
{
}

} // verus!
