//! Beacon targets: typed handles of the five surfaces a hint can point at, and
//! the registry that tells current handles from stale ones by generation.

use crate::panel::PanelId;
use crate::text;
use std::collections::HashMap;
use vstd::prelude::*;

verus! {

broadcast use vstd::std_specs::hash::group_hash_axioms;

/// Most live targets of one kind, and most tombstones of all kinds.
pub const MAX_TARGETS_PER_KIND: usize = 1024;

/// Stable handle of a workspace.
#[derive(Debug, Clone, Copy, PartialEq, Eq, Structural, Hash, PartialOrd, Ord)]
pub struct WorkspaceId(pub u64);

impl WorkspaceId {
    /// Creates an id from a raw value.
    #[must_use]
    pub fn new(raw: u64) -> (id: Self)
        ensures
            id == WorkspaceId(raw),
    {
        Self(raw)
    }

    /// Returns the raw value.
    #[must_use]
    pub fn get(self) -> (raw: u64)
        ensures
            raw == self.0,
    {
        self.0
    }

    /// The spelling `WorkspaceId(<raw>)`.
    pub open spec fn spelled(self) -> Seq<char> {
        "WorkspaceId("@ + text::decimal(self.0 as nat) + ")"@
    }

    /// Spells the id for messages.
    #[must_use]
    pub fn text(self) -> (out: String)
        ensures
            out@ == self.spelled(),
    {
        text::tagged_number("WorkspaceId(", self.0, ")")
    }
}

/// Stable handle of a command block.
#[derive(Debug, Clone, Copy, PartialEq, Eq, Structural, Hash, PartialOrd, Ord)]
pub struct CommandBlockId(pub u64);

impl CommandBlockId {
    /// Creates an id from a raw value.
    #[must_use]
    pub fn new(raw: u64) -> (id: Self)
        ensures
            id == CommandBlockId(raw),
    {
        Self(raw)
    }

    /// Returns the raw value.
    #[must_use]
    pub fn get(self) -> (raw: u64)
        ensures
            raw == self.0,
    {
        self.0
    }

    /// The spelling `CommandBlockId(<raw>)`.
    pub open spec fn spelled(self) -> Seq<char> {
        "CommandBlockId("@ + text::decimal(self.0 as nat) + ")"@
    }

    /// Spells the id for messages.
    #[must_use]
    pub fn text(self) -> (out: String)
        ensures
            out@ == self.spelled(),
    {
        text::tagged_number("CommandBlockId(", self.0, ")")
    }
}

/// Stable handle of a interface node.
#[derive(Debug, Clone, Copy, PartialEq, Eq, Structural, Hash, PartialOrd, Ord)]
pub struct UiNodeId(pub u64);

impl UiNodeId {
    /// Creates an id from a raw value.
    #[must_use]
    pub fn new(raw: u64) -> (id: Self)
        ensures
            id == UiNodeId(raw),
    {
        Self(raw)
    }

    /// Returns the raw value.
    #[must_use]
    pub fn get(self) -> (raw: u64)
        ensures
            raw == self.0,
    {
        self.0
    }

    /// The spelling `UiNodeId(<raw>)`.
    pub open spec fn spelled(self) -> Seq<char> {
        "UiNodeId("@ + text::decimal(self.0 as nat) + ")"@
    }

    /// Spells the id for messages.
    #[must_use]
    pub fn text(self) -> (out: String)
        ensures
            out@ == self.spelled(),
    {
        text::tagged_number("UiNodeId(", self.0, ")")
    }
}

/// Stable handle of a link.
#[derive(Debug, Clone, Copy, PartialEq, Eq, Structural, Hash, PartialOrd, Ord)]
pub struct LinkId(pub u64);

impl LinkId {
    /// Creates an id from a raw value.
    #[must_use]
    pub fn new(raw: u64) -> (id: Self)
        ensures
            id == LinkId(raw),
    {
        Self(raw)
    }

    /// Returns the raw value.
    #[must_use]
    pub fn get(self) -> (raw: u64)
        ensures
            raw == self.0,
    {
        self.0
    }

    /// The spelling `LinkId(<raw>)`.
    pub open spec fn spelled(self) -> Seq<char> {
        "LinkId("@ + text::decimal(self.0 as nat) + ")"@
    }

    /// Spells the id for messages.
    #[must_use]
    pub fn text(self) -> (out: String)
        ensures
            out@ == self.spelled(),
    {
        text::tagged_number("LinkId(", self.0, ")")
    }
}

/// Handle of a panel at one generation.
#[derive(Debug, Clone, Copy, PartialEq, Eq, Structural, Hash)]
pub struct PanelRef {
    /// The panel.
    pub id: PanelId,
    /// Generation at which the handle was issued.
    pub generation: u64,
}

/// Handle of a workspace at one generation.
#[derive(Debug, Clone, Copy, PartialEq, Eq, Structural, Hash)]
pub struct WorkspaceRef {
    /// The workspace.
    pub id: WorkspaceId,
    /// Generation at which the handle was issued.
    pub generation: u64,
}

/// Handle of a command block at one generation.
#[derive(Debug, Clone, Copy, PartialEq, Eq, Structural, Hash)]
pub struct CommandBlockRef {
    /// The command block.
    pub id: CommandBlockId,
    /// Generation at which the handle was issued.
    pub generation: u64,
}

/// Handle of a interface node at one generation.
#[derive(Debug, Clone, Copy, PartialEq, Eq, Structural, Hash)]
pub struct UiNodeRef {
    /// The interface node.
    pub id: UiNodeId,
    /// Generation at which the handle was issued.
    pub generation: u64,
}

/// Handle of a link at one generation.
#[derive(Debug, Clone, Copy, PartialEq, Eq, Structural, Hash)]
pub struct LinkRef {
    /// The link.
    pub id: LinkId,
    /// Generation at which the handle was issued.
    pub generation: u64,
}

/// Kind of a beacon target.
#[derive(Debug, Clone, Copy, PartialEq, Eq, Structural, Hash)]
pub enum TargetKind {
    /// A panel.
    Panel,
    /// A workspace.
    Workspace,
    /// A command block.
    CommandBlock,
    /// A interface node.
    UiNode,
    /// A link.
    Link,
}

/// What a target is, whatever its generation.
#[derive(Debug, Clone, Copy, PartialEq, Eq, Structural, Hash)]
pub struct Surface {
    /// Kind of the target.
    pub kind: TargetKind,
    /// Raw id of the target.
    pub raw: u64,
}

/// Handle of a beacon target.
#[derive(Debug, Clone, Copy, PartialEq, Eq, Structural, Hash)]
pub enum TargetRef {
    /// A panel.
    Panel(PanelRef),
    /// A workspace.
    Workspace(WorkspaceRef),
    /// A command block.
    CommandBlock(CommandBlockRef),
    /// A interface node.
    UiNode(UiNodeRef),
    /// A link.
    Link(LinkRef),
}

impl TargetRef {
    /// What the handle points at.
    pub open spec fn surface(self) -> Surface {
        match self {
            TargetRef::Panel(r) => Surface { kind: TargetKind::Panel, raw: r.id.0 },
            TargetRef::Workspace(r) => Surface { kind: TargetKind::Workspace, raw: r.id.0 },
            TargetRef::CommandBlock(r) => Surface { kind: TargetKind::CommandBlock, raw: r.id.0 },
            TargetRef::UiNode(r) => Surface { kind: TargetKind::UiNode, raw: r.id.0 },
            TargetRef::Link(r) => Surface { kind: TargetKind::Link, raw: r.id.0 },
        }
    }

    /// The generation the handle carries.
    pub open spec fn generation(self) -> u64 {
        match self {
            TargetRef::Panel(r) => r.generation,
            TargetRef::Workspace(r) => r.generation,
            TargetRef::CommandBlock(r) => r.generation,
            TargetRef::UiNode(r) => r.generation,
            TargetRef::Link(r) => r.generation,
        }
    }

    /// The spelling `<Kind>(<id>, gen <generation>)`.
    pub open spec fn spelled(self) -> Seq<char> {
        match self {
            TargetRef::Panel(r) => "Panel("@ + r.id.spelled() + ", gen "@ + text::decimal(
                r.generation as nat,
            ) + ")"@,
            TargetRef::Workspace(r) => "Workspace("@ + r.id.spelled() + ", gen "@ + text::decimal(
                r.generation as nat,
            ) + ")"@,
            TargetRef::CommandBlock(r) => "CommandBlock("@ + r.id.spelled() + ", gen "@ + text::decimal(
                r.generation as nat,
            ) + ")"@,
            TargetRef::UiNode(r) => "UiNode("@ + r.id.spelled() + ", gen "@ + text::decimal(
                r.generation as nat,
            ) + ")"@,
            TargetRef::Link(r) => "Link("@ + r.id.spelled() + ", gen "@ + text::decimal(
                r.generation as nat,
            ) + ")"@,
        }
    }

    /// Spells the handle for messages.
    #[must_use]
    pub fn text(&self) -> (out: String)
        ensures
            out@ == self.spelled(),
    {
        let (head, id) = match self {
            Self::Panel(r) => ("Panel(", r.id.text()),
            Self::Workspace(r) => ("Workspace(", r.id.text()),
            Self::CommandBlock(r) => ("CommandBlock(", r.id.text()),
            Self::UiNode(r) => ("UiNode(", r.id.text()),
            Self::Link(r) => ("Link(", r.id.text()),
        };
        let generation: u64 = captured_generation(self);
        let mut out = text::joined3(head, id.as_str(), ", gen ");
        text::push_decimal(&mut out, generation);
        text::push_text(&mut out, ")");
        out
    }
}

/// The generation a handle carries.
fn captured_generation(target: &TargetRef) -> (generation: u64)
    ensures
        generation == target.generation(),
{
    match target {
        TargetRef::Panel(r) => r.generation,
        TargetRef::Workspace(r) => r.generation,
        TargetRef::CommandBlock(r) => r.generation,
        TargetRef::UiNode(r) => r.generation,
        TargetRef::Link(r) => r.generation,
    }
}

/// Refusal of the registry; a hint session that meets one ends.
#[derive(Debug, Clone, PartialEq, Eq)]
pub enum TargetError {
    /// The target was never registered.
    UnknownTarget(String),
    /// The target retired or was registered again since.
    StaleTarget(String),
    /// The table of the kind is full.
    TooManyTargets {
        /// The bound.
        max: usize,
        /// Live entries of the kind.
        current: usize,
    },
}

impl TargetError {
    /// The message of the error.
    pub open spec fn spelled(self) -> Seq<char> {
        match self {
            TargetError::UnknownTarget(detail) => "unknown beacon target: "@ + detail@,
            TargetError::StaleTarget(detail) => "stale beacon target: "@ + detail@,
            TargetError::TooManyTargets { max, current } => "too many beacon targets: max "@
                + text::decimal(max as nat) + ", current "@ + text::decimal(current as nat),
        }
    }

    /// Spells the error.
    #[must_use]
    pub fn text(&self) -> (out: String)
        ensures
            out@ == self.spelled(),
    {
        match self {
            Self::UnknownTarget(detail) => text::joined("unknown beacon target: ", detail.as_str()),
            Self::StaleTarget(detail) => text::joined("stale beacon target: ", detail.as_str()),
            Self::TooManyTargets { max, current } => text::ending_numbers(
                "too many beacon targets: max ",
                *max as u64,
                ", current ",
                *current as u64,
            ),
        }
    }
}

/// Registry of live targets. A registration issues the next generation, so
/// every handle issued before goes stale; a retirement leaves a tombstone while
/// there is room for one.
#[derive(Debug)]
pub struct TargetRegistry {
    panels: HashMap<u64, u64>,
    workspaces: HashMap<u64, u64>,
    blocks: HashMap<u64, u64>,
    nodes: HashMap<u64, u64>,
    links: HashMap<u64, u64>,
    tombstones: Vec<Surface>,
    issuer: u64,
}

impl TargetRegistry {
    /// The generation of each live id of a kind.
    pub closed spec fn live(self, kind: TargetKind) -> Map<u64, u64> {
        match kind {
            TargetKind::Panel => self.panels@,
            TargetKind::Workspace => self.workspaces@,
            TargetKind::CommandBlock => self.blocks@,
            TargetKind::UiNode => self.nodes@,
            TargetKind::Link => self.links@,
        }
    }

    /// The surfaces with a tombstone.
    pub closed spec fn retired(self) -> Set<Surface> {
        self.tombstones@.to_set()
    }

    /// The generation that the next registration takes.
    pub closed spec fn next(self) -> u64 {
        self.issuer
    }

    /// The generation under which a surface is live.
    pub open spec fn live_generation(self, surface: Surface) -> Option<u64> {
        if self.live(surface.kind).contains_key(surface.raw) {
            Some(self.live(surface.kind)[surface.raw])
        } else {
            None
        }
    }

    /// Every table is within its bound, and no tombstone stands twice.
    pub closed spec fn wf(self) -> bool {
        &&& self.panels@.len() <= MAX_TARGETS_PER_KIND
        &&& self.workspaces@.len() <= MAX_TARGETS_PER_KIND
        &&& self.blocks@.len() <= MAX_TARGETS_PER_KIND
        &&& self.nodes@.len() <= MAX_TARGETS_PER_KIND
        &&& self.links@.len() <= MAX_TARGETS_PER_KIND
        &&& self.tombstones@.len() <= MAX_TARGETS_PER_KIND
        &&& self.tombstones@.no_duplicates()
    }

    /// Whether the handle is current.
    pub open spec fn is_current(self, target: TargetRef) -> bool {
        self.live_generation(target.surface()) == Some(target.generation())
    }

    /// Whether the handle was overtaken by a registration or a retirement.
    pub open spec fn is_stale(self, target: TargetRef) -> bool {
        match self.live_generation(target.surface()) {
            Some(generation) => generation != target.generation(),
            None => self.retired().contains(target.surface()),
        }
    }

    /// Whether a surface finds no room.
    pub open spec fn is_full_for(self, surface: Surface) -> bool {
        self.live_generation(surface) is None && self.live(surface.kind).len()
            >= MAX_TARGETS_PER_KIND
    }

    /// `self` is `before` with `surface` registered under the next generation.
    pub open spec fn registers(self, before: Self, surface: Surface) -> bool {
        &&& forall|kind: TargetKind|
            #![trigger self.live(kind)]
            #![trigger before.live(kind)]
            self.live(kind) == if kind == surface.kind {
                before.live(kind).insert(surface.raw, before.next())
            } else {
                before.live(kind)
            }
        &&& self.retired() == before.retired()
        &&& self.next() == if before.next() == u64::MAX {
            0
        } else {
            (before.next() + 1) as u64
        }
    }

    /// `self` is `before` without `surface`, which got a tombstone if there was
    /// room for one.
    pub open spec fn retires(self, before: Self, surface: Surface) -> bool {
        &&& forall|kind: TargetKind|
            #![trigger self.live(kind)]
            #![trigger before.live(kind)]
            self.live(kind) == if kind == surface.kind {
                before.live(kind).remove(surface.raw)
            } else {
                before.live(kind)
            }
        &&& self.retired() == if before.live_generation(surface) is Some && before.retired().len()
            < MAX_TARGETS_PER_KIND {
            before.retired().insert(surface)
        } else {
            before.retired()
        }
        &&& self.next() == before.next()
    }

    /// `self` and `before` hold the same.
    pub open spec fn same_as(self, before: Self) -> bool {
        &&& forall|kind: TargetKind|
            #![trigger self.live(kind)]
            #![trigger before.live(kind)]
            self.live(kind) == before.live(kind)
        &&& self.retired() == before.retired()
        &&& self.next() == before.next()
    }

    /// The error of a full table.
    pub open spec fn full_error(self, kind: TargetKind) -> TargetError {
        TargetError::TooManyTargets {
            max: MAX_TARGETS_PER_KIND,
            current: self.live(kind).len() as usize,
        }
    }

    /// Creates an empty registry.
    #[must_use]
    pub fn new() -> (registry: Self)
        ensures
            registry.wf(),
            forall|kind: TargetKind| (#[trigger] registry.live(kind)) == Map::<u64, u64>::empty(),
            registry.retired() == Set::<Surface>::empty(),
            registry.next() == 0,
    {
        let registry = Self {
            panels: HashMap::new(),
            workspaces: HashMap::new(),
            blocks: HashMap::new(),
            nodes: HashMap::new(),
            links: HashMap::new(),
            tombstones: Vec::new(),
            issuer: 0,
        };
        assert(registry.tombstones@.to_set() =~= Set::<Surface>::empty());
        registry
    }

    /// Number of live targets of all kinds.
    #[must_use]
    pub fn len(&self) -> (n: usize)
        requires
            self.wf(),
        ensures
            n == self.live(TargetKind::Panel).len() + self.live(TargetKind::Workspace).len()
                + self.live(TargetKind::CommandBlock).len() + self.live(TargetKind::UiNode).len()
                + self.live(TargetKind::Link).len(),
    {
        proof {
            assert(self.live(TargetKind::Panel) == self.panels@);
            assert(self.live(TargetKind::Workspace) == self.workspaces@);
            assert(self.live(TargetKind::CommandBlock) == self.blocks@);
            assert(self.live(TargetKind::UiNode) == self.nodes@);
            assert(self.live(TargetKind::Link) == self.links@);
        }
        self.panels.len() + self.workspaces.len() + self.blocks.len() + self.nodes.len()
            + self.links.len()
    }

    /// Whether no target is live.
    #[must_use]
    pub fn is_empty(&self) -> (empty: bool)
        requires
            self.wf(),
        ensures
            empty == forall|kind: TargetKind| (#[trigger] self.live(kind)).len() == 0,
    {
        let n: usize = self.len();
        proof {
            if n == 0 {
                assert forall|kind: TargetKind| (#[trigger] self.live(kind)).len() == 0 by {
                    match kind {
                        TargetKind::Panel => {},
                        TargetKind::Workspace => {},
                        TargetKind::CommandBlock => {},
                        TargetKind::UiNode => {},
                        TargetKind::Link => {},
                    }
                }
            }
        }
        n == 0
    }

    /// Enters `raw` under the next generation, unless it is new and the table
    /// is full.
    fn issue(table: &mut HashMap<u64, u64>, issuer: &mut u64, raw: u64) -> (r: Result<
        u64,
        TargetError,
    >)
        ensures
            match r {
                Ok(generation) => (old(table)@.contains_key(raw) || old(table)@.len()
                    < MAX_TARGETS_PER_KIND) && generation == *old(issuer) && final(table)@ == old(
                    table
                )@.insert(raw, generation) && *final(issuer) == (if *old(issuer) == u64::MAX {
                    0
                } else {
                    (*old(issuer) + 1) as u64
                }),
                Err(e) => !old(table)@.contains_key(raw) && old(table)@.len()
                    >= MAX_TARGETS_PER_KIND && e == (TargetError::TooManyTargets {
                    max: MAX_TARGETS_PER_KIND,
                    current: old(table)@.len() as usize,
                }) && final(table)@ == old(table)@ && *final(issuer) == *old(issuer),
            },
    {
        if !table.contains_key(&raw) && table.len() >= MAX_TARGETS_PER_KIND {
            return Err(
                TargetError::TooManyTargets { max: MAX_TARGETS_PER_KIND, current: table.len() },
            );
        }
        let generation: u64 = *issuer;
        *issuer = issuer.wrapping_add(1);
        table.insert(raw, generation);
        Ok(generation)
    }

    /// Registers a panel, or registers it again, and returns its handle.
    pub fn insert_panel(&mut self, id: PanelId) -> (r: Result<PanelRef, TargetError>)
        requires
            old(self).wf(),
        ensures
            final(self).wf(),
            ({
                let surface = Surface { kind: TargetKind::Panel, raw: id.0 };
                if old(self).is_full_for(surface) {
                    r == Err::<PanelRef, TargetError>(old(self).full_error(surface.kind))
                        && final(self).same_as(*old(self))
                } else {
                    r == Ok::<PanelRef, TargetError>(PanelRef { id, generation: old(self).next() })
                        && final(self).registers(*old(self), surface)
                }
            }),
    {
        assert(self.live(TargetKind::Panel) == self.panels@);
        match Self::issue(&mut self.panels, &mut self.issuer, id.0) {
            Ok(generation) => {
                proof {
                    lemma_room(old(self).panels@, id.0, generation);
                }
                Ok(PanelRef { id, generation })
            },
            Err(e) => Err(e),
        }
    }

    /// Registers a workspace, or registers it again, and returns its handle.
    pub fn insert_workspace(&mut self, id: WorkspaceId) -> (r: Result<WorkspaceRef, TargetError>)
        requires
            old(self).wf(),
        ensures
            final(self).wf(),
            ({
                let surface = Surface { kind: TargetKind::Workspace, raw: id.0 };
                if old(self).is_full_for(surface) {
                    r == Err::<WorkspaceRef, TargetError>(old(self).full_error(surface.kind))
                        && final(self).same_as(*old(self))
                } else {
                    r == Ok::<WorkspaceRef, TargetError>(WorkspaceRef { id, generation: old(self).next() })
                        && final(self).registers(*old(self), surface)
                }
            }),
    {
        assert(self.live(TargetKind::Workspace) == self.workspaces@);
        match Self::issue(&mut self.workspaces, &mut self.issuer, id.0) {
            Ok(generation) => {
                proof {
                    lemma_room(old(self).workspaces@, id.0, generation);
                }
                Ok(WorkspaceRef { id, generation })
            },
            Err(e) => Err(e),
        }
    }

    /// Registers a command block, or registers it again, and returns its handle.
    pub fn insert_block(&mut self, id: CommandBlockId) -> (r: Result<CommandBlockRef, TargetError>)
        requires
            old(self).wf(),
        ensures
            final(self).wf(),
            ({
                let surface = Surface { kind: TargetKind::CommandBlock, raw: id.0 };
                if old(self).is_full_for(surface) {
                    r == Err::<CommandBlockRef, TargetError>(old(self).full_error(surface.kind))
                        && final(self).same_as(*old(self))
                } else {
                    r == Ok::<CommandBlockRef, TargetError>(CommandBlockRef { id, generation: old(self).next() })
                        && final(self).registers(*old(self), surface)
                }
            }),
    {
        assert(self.live(TargetKind::CommandBlock) == self.blocks@);
        match Self::issue(&mut self.blocks, &mut self.issuer, id.0) {
            Ok(generation) => {
                proof {
                    lemma_room(old(self).blocks@, id.0, generation);
                }
                Ok(CommandBlockRef { id, generation })
            },
            Err(e) => Err(e),
        }
    }

    /// Registers a interface node, or registers it again, and returns its handle.
    pub fn insert_node(&mut self, id: UiNodeId) -> (r: Result<UiNodeRef, TargetError>)
        requires
            old(self).wf(),
        ensures
            final(self).wf(),
            ({
                let surface = Surface { kind: TargetKind::UiNode, raw: id.0 };
                if old(self).is_full_for(surface) {
                    r == Err::<UiNodeRef, TargetError>(old(self).full_error(surface.kind))
                        && final(self).same_as(*old(self))
                } else {
                    r == Ok::<UiNodeRef, TargetError>(UiNodeRef { id, generation: old(self).next() })
                        && final(self).registers(*old(self), surface)
                }
            }),
    {
        assert(self.live(TargetKind::UiNode) == self.nodes@);
        match Self::issue(&mut self.nodes, &mut self.issuer, id.0) {
            Ok(generation) => {
                proof {
                    lemma_room(old(self).nodes@, id.0, generation);
                }
                Ok(UiNodeRef { id, generation })
            },
            Err(e) => Err(e),
        }
    }

    /// Registers a link, or registers it again, and returns its handle.
    pub fn insert_link(&mut self, id: LinkId) -> (r: Result<LinkRef, TargetError>)
        requires
            old(self).wf(),
        ensures
            final(self).wf(),
            ({
                let surface = Surface { kind: TargetKind::Link, raw: id.0 };
                if old(self).is_full_for(surface) {
                    r == Err::<LinkRef, TargetError>(old(self).full_error(surface.kind))
                        && final(self).same_as(*old(self))
                } else {
                    r == Ok::<LinkRef, TargetError>(LinkRef { id, generation: old(self).next() })
                        && final(self).registers(*old(self), surface)
                }
            }),
    {
        assert(self.live(TargetKind::Link) == self.links@);
        match Self::issue(&mut self.links, &mut self.issuer, id.0) {
            Ok(generation) => {
                proof {
                    lemma_room(old(self).links@, id.0, generation);
                }
                Ok(LinkRef { id, generation })
            },
            Err(e) => Err(e),
        }
    }

    /// Retires a panel; tells whether it was live.
    pub fn retire_panel(&mut self, id: PanelId) -> (was_live: bool)
        requires
            old(self).wf(),
        ensures
            final(self).wf(),
            was_live == (old(self).live_generation(
                Surface { kind: TargetKind::Panel, raw: id.0 },
            ) is Some),
            final(self).retires(*old(self), Surface { kind: TargetKind::Panel, raw: id.0 }),
    {
        assert(self.live(TargetKind::Panel) == self.panels@);
        let removed = self.panels.remove(&id.0);
        assert(self.panels@ =~= old(self).panels@.remove(id.0));
        proof {
            lemma_removal(old(self).panels@, id.0);
        }
        if removed.is_some() {
            self.note_retired(Surface { kind: TargetKind::Panel, raw: id.0 });
            true
        } else {
            false
        }
    }

    /// Retires a workspace; tells whether it was live.
    pub fn retire_workspace(&mut self, id: WorkspaceId) -> (was_live: bool)
        requires
            old(self).wf(),
        ensures
            final(self).wf(),
            was_live == (old(self).live_generation(
                Surface { kind: TargetKind::Workspace, raw: id.0 },
            ) is Some),
            final(self).retires(*old(self), Surface { kind: TargetKind::Workspace, raw: id.0 }),
    {
        assert(self.live(TargetKind::Workspace) == self.workspaces@);
        let removed = self.workspaces.remove(&id.0);
        assert(self.workspaces@ =~= old(self).workspaces@.remove(id.0));
        proof {
            lemma_removal(old(self).workspaces@, id.0);
        }
        if removed.is_some() {
            self.note_retired(Surface { kind: TargetKind::Workspace, raw: id.0 });
            true
        } else {
            false
        }
    }

    /// Retires a command block; tells whether it was live.
    pub fn retire_block(&mut self, id: CommandBlockId) -> (was_live: bool)
        requires
            old(self).wf(),
        ensures
            final(self).wf(),
            was_live == (old(self).live_generation(
                Surface { kind: TargetKind::CommandBlock, raw: id.0 },
            ) is Some),
            final(self).retires(*old(self), Surface { kind: TargetKind::CommandBlock, raw: id.0 }),
    {
        assert(self.live(TargetKind::CommandBlock) == self.blocks@);
        let removed = self.blocks.remove(&id.0);
        assert(self.blocks@ =~= old(self).blocks@.remove(id.0));
        proof {
            lemma_removal(old(self).blocks@, id.0);
        }
        if removed.is_some() {
            self.note_retired(Surface { kind: TargetKind::CommandBlock, raw: id.0 });
            true
        } else {
            false
        }
    }

    /// Retires a interface node; tells whether it was live.
    pub fn retire_node(&mut self, id: UiNodeId) -> (was_live: bool)
        requires
            old(self).wf(),
        ensures
            final(self).wf(),
            was_live == (old(self).live_generation(
                Surface { kind: TargetKind::UiNode, raw: id.0 },
            ) is Some),
            final(self).retires(*old(self), Surface { kind: TargetKind::UiNode, raw: id.0 }),
    {
        assert(self.live(TargetKind::UiNode) == self.nodes@);
        let removed = self.nodes.remove(&id.0);
        assert(self.nodes@ =~= old(self).nodes@.remove(id.0));
        proof {
            lemma_removal(old(self).nodes@, id.0);
        }
        if removed.is_some() {
            self.note_retired(Surface { kind: TargetKind::UiNode, raw: id.0 });
            true
        } else {
            false
        }
    }

    /// Retires a link; tells whether it was live.
    pub fn retire_link(&mut self, id: LinkId) -> (was_live: bool)
        requires
            old(self).wf(),
        ensures
            final(self).wf(),
            was_live == (old(self).live_generation(
                Surface { kind: TargetKind::Link, raw: id.0 },
            ) is Some),
            final(self).retires(*old(self), Surface { kind: TargetKind::Link, raw: id.0 }),
    {
        assert(self.live(TargetKind::Link) == self.links@);
        let removed = self.links.remove(&id.0);
        assert(self.links@ =~= old(self).links@.remove(id.0));
        proof {
            lemma_removal(old(self).links@, id.0);
        }
        if removed.is_some() {
            self.note_retired(Surface { kind: TargetKind::Link, raw: id.0 });
            true
        } else {
            false
        }
    }

    /// Leaves a tombstone, if there is room for one.
    fn note_retired(&mut self, surface: Surface)
        requires
            old(self).wf(),
        ensures
            final(self).wf(),
            final(self).panels@ == old(self).panels@,
            final(self).workspaces@ == old(self).workspaces@,
            final(self).blocks@ == old(self).blocks@,
            final(self).nodes@ == old(self).nodes@,
            final(self).links@ == old(self).links@,
            final(self).issuer == old(self).issuer,
            final(self).retired() == if old(self).retired().len() < MAX_TARGETS_PER_KIND {
                old(self).retired().insert(surface)
            } else {
                old(self).retired()
            },
    {
        proof {
            self.tombstones@.unique_seq_to_set();
        }
        if self.tombstones.len() < MAX_TARGETS_PER_KIND {
            if !self.has_tombstone(surface) {
                self.tombstones.push(surface);
                assert(self.tombstones@.to_set() =~= old(self).tombstones@.to_set().insert(surface))
                    by {
                    assert forall|s: Surface|
                        old(self).tombstones@.to_set().insert(surface).contains(s) implies #[trigger] self.tombstones@.to_set().contains(
                    s) by {
                        if s == surface {
                            assert(self.tombstones@[old(self).tombstones@.len() as int] == s);
                        } else {
                            let i = choose|i: int|
                                0 <= i < old(self).tombstones@.len() && old(self).tombstones@[i]
                                    == s;
                            assert(self.tombstones@[i] == s);
                        }
                    }
                }
            } else {
                assert(old(self).tombstones@.to_set().insert(surface) =~= old(
                    self
                ).tombstones@.to_set());
            }
        }
        assert(forall|kind: TargetKind| #[trigger] self.live(kind) == old(self).live(kind));
    }

    fn has_tombstone(&self, surface: Surface) -> (found: bool)
        ensures
            found == self.retired().contains(surface),
            found == self.tombstones@.contains(surface),
    {
        let mut i: usize = 0;
        while i < self.tombstones.len()
            invariant
                0 <= i <= self.tombstones.len(),
                forall|j: int| 0 <= j < i ==> self.tombstones@[j] != surface,
            decreases self.tombstones.len() - i,
        {
            if self.tombstones[i] == surface {
                assert(self.tombstones@[i as int] == surface);
                return true;
            }
            i = i + 1;
        }
        false
    }

    /// Returns the handle itself when it is current; fails as stale when the
    /// target was registered again or retired, and as unknown otherwise.
    pub fn resolve(&self, target: &TargetRef) -> (r: Result<TargetRef, TargetError>)
        ensures
            match r {
                Ok(resolved) => self.is_current(*target) && resolved == *target,
                Err(TargetError::StaleTarget(detail)) => self.is_stale(*target) && detail@
                    == target.spelled(),
                Err(TargetError::UnknownTarget(detail)) => !self.is_current(*target)
                    && !self.is_stale(*target) && detail@ == target.spelled(),
                Err(TargetError::TooManyTargets { .. }) => false,
            },
    {
        let (live, surface) = match target {
            TargetRef::Panel(r) => (
                self.panels.get(&r.id.0),
                Surface { kind: TargetKind::Panel, raw: r.id.0 },
            ),
            TargetRef::Workspace(r) => (
                self.workspaces.get(&r.id.0),
                Surface { kind: TargetKind::Workspace, raw: r.id.0 },
            ),
            TargetRef::CommandBlock(r) => (
                self.blocks.get(&r.id.0),
                Surface { kind: TargetKind::CommandBlock, raw: r.id.0 },
            ),
            TargetRef::UiNode(r) => (
                self.nodes.get(&r.id.0),
                Surface { kind: TargetKind::UiNode, raw: r.id.0 },
            ),
            TargetRef::Link(r) => (
                self.links.get(&r.id.0),
                Surface { kind: TargetKind::Link, raw: r.id.0 },
            ),
        };
        match live {
            None => if self.has_tombstone(surface) {
                Err(TargetError::StaleTarget(target.text()))
            } else {
                Err(TargetError::UnknownTarget(target.text()))
            },
            Some(generation) => if *generation == captured_generation(target) {
                Ok(*target)
            } else {
                Err(TargetError::StaleTarget(target.text()))
            },
        }
    }
}

impl Default for TargetRegistry {
    fn default() -> (registry: Self)
        ensures
            registry.wf(),
            forall|kind: TargetKind| (#[trigger] registry.live(kind)) == Map::<u64, u64>::empty(),
            registry.retired() == Set::<Surface>::empty(),
            registry.next() == 0,
    {
        Self::new()
    }
}

impl Clone for TargetRegistry {
    fn clone(&self) -> (copy: Self)
        ensures
            copy.same_as(*self),
            self.wf() ==> copy.wf(),
    {
        let copy = Self {
            panels: self.panels.clone(),
            workspaces: self.workspaces.clone(),
            blocks: self.blocks.clone(),
            nodes: self.nodes.clone(),
            links: self.links.clone(),
            tombstones: self.tombstones.clone(),
            issuer: self.issuer,
        };
        assert(copy.tombstones@ =~= self.tombstones@);
        assert(forall|kind: TargetKind| #[trigger] self.live(kind) == copy.live(kind));
        copy
    }
}

/// No kind holds more live targets than its bound, and neither do the
/// tombstones.
pub proof fn registries_are_bounded(registry: TargetRegistry, kind: TargetKind)
    requires
        registry.wf(),
    ensures
        registry.live(kind).len() <= MAX_TARGETS_PER_KIND,
        registry.retired().len() <= MAX_TARGETS_PER_KIND,
{
    registry.tombstones@.unique_seq_to_set();
}

/// The tables are finite.
pub proof fn tables_are_finite(registry: TargetRegistry, kind: TargetKind)
    ensures
        registry.live(kind).dom().finite(),
{
}

/// A registration makes its own handle current and every other handle of the
/// same surface stale.
pub proof fn registering_replaces_the_handle(
    before: TargetRegistry,
    after: TargetRegistry,
    target: TargetRef,
)
    requires
        after.registers(before, target.surface()),
    ensures
        target.generation() == before.next() ==> after.is_current(target),
        target.generation() != before.next() ==> after.is_stale(target),
{
}

/// After a retirement no handle of the surface is current; they are stale while
/// there was room for the tombstone.
pub proof fn retiring_ends_every_handle(
    before: TargetRegistry,
    after: TargetRegistry,
    target: TargetRef,
)
    requires
        after.retires(before, target.surface()),
        before.live_generation(target.surface()) is Some,
    ensures
        !after.is_current(target),
        before.retired().len() < MAX_TARGETS_PER_KIND ==> after.is_stale(target),
{
}

/// Registering or retiring one surface leaves the handles of all others as they
/// were.
pub proof fn other_surfaces_keep_their_handles(
    before: TargetRegistry,
    after: TargetRegistry,
    surface: Surface,
    target: TargetRef,
)
    requires
        after.registers(before, surface) || after.retires(before, surface),
        target.surface() != surface,
    ensures
        after.is_current(target) == before.is_current(target),
        after.is_stale(target) == before.is_stale(target),
{
}

/// A handle that is no longer current never becomes current again, whatever is
/// registered or retired, until the generations wrap around.
pub proof fn dead_handles_stay_dead(
    before: TargetRegistry,
    after: TargetRegistry,
    surface: Surface,
    target: TargetRef,
)
    requires
        target.generation() < before.next(),
        !before.is_current(target),
        after.retires(before, surface) || (after.registers(before, surface) && before.next()
            < u64::MAX),
    ensures
        target.generation() < after.next(),
        !after.is_current(target),
{
}

/// The generation that comes `k` registrations after `first`.
pub open spec fn generation_after(first: u64, k: int) -> u64 {
    ((first + k) % 0x1_0000_0000_0000_0000) as u64
}

/// Registrations less than a whole round of generations apart take different
/// ones.
pub proof fn generations_differ(first: u64, i: int, j: int)
    requires
        0 <= i < j <= i + u64::MAX,
    ensures
        generation_after(first, i) != generation_after(first, j),
{
    let m = 0x1_0000_0000_0000_0000int;
    let (a, b) = (first + i, first + j);
    vstd::arithmetic::div_mod::lemma_fundamental_div_mod(a, m);
    vstd::arithmetic::div_mod::lemma_fundamental_div_mod(b, m);
    if a % m == b % m {
        let (p, q) = (a / m, b / m);
        assert(b - a == m * (q - p)) by (nonlinear_arith)
            requires
                a == m * p + a % m,
                b == m * q + b % m,
                a % m == b % m,
        ;
        assert(false) by (nonlinear_arith)
            requires
                b - a == m * (q - p),
                0 < b - a < m,
        ;
    }
}

/// Generations count on from wherever they stand.
pub proof fn generations_add_up(first: u64, i: int, j: int)
    requires
        0 <= i,
        0 <= j,
    ensures
        generation_after(generation_after(first, i), j) == generation_after(first, i + j),
{
    let m = 0x1_0000_0000_0000_0000int;
    vstd::arithmetic::div_mod::lemma_mod_bound(first + i, m);
    vstd::arithmetic::div_mod::lemma_add_mod_noop_right(j, first + i, m);
    assert(j + (first + i) == first + (i + j));
}

/// What happened to a registry.
pub enum Event {
    /// A surface was registered.
    Registered(Surface),
    /// A surface was retired, if it was live.
    Retired(Surface),
}

impl Event {
    /// The surface.
    pub open spec fn surface(self) -> Surface {
        match self {
            Event::Registered(surface) => surface,
            Event::Retired(surface) => surface,
        }
    }
}

/// `states` are the registries between the events: the events lead from each to
/// the next one.
pub open spec fn is_history(states: Seq<TargetRegistry>, events: Seq<Event>) -> bool {
    &&& states.len() == events.len() + 1
    &&& forall|i: int|
        #![trigger events[i]]
        0 <= i < events.len() ==> match events[i] {
            Event::Registered(surface) => states[i + 1].registers(states[i], surface),
            Event::Retired(surface) => states[i + 1].retires(states[i], surface),
        }
}

/// No event from `from` up to `to` is about the surface.
pub open spec fn is_quiet(events: Seq<Event>, surface: Surface, from: int, to: int) -> bool {
    forall|i: int| from <= i < to ==> (#[trigger] events[i]).surface() != surface
}

/// How many of the events from `from` up to `to` are registrations.
pub open spec fn registrations(events: Seq<Event>, from: int, to: int) -> int
    decreases to - from,
{
    if to <= from {
        0
    } else {
        registrations(events, from, to - 1) + if events[to - 1] is Registered {
            1int
        } else {
            0int
        }
    }
}

proof fn lemma_registrations(events: Seq<Event>, from: int, to: int)
    ensures
        0 <= registrations(events, from, to) <= if to > from {
            to - from
        } else {
            0
        },
    decreases to - from,
{
    if to > from {
        lemma_registrations(events, from, to - 1);
    }
}

proof fn lemma_trace(
    states: Seq<TargetRegistry>,
    events: Seq<Event>,
    k: int,
    m: int,
    target: TargetRef,
)
    requires
        is_history(states, events),
        0 <= k < m <= events.len(),
        events[k] == Event::Registered(target.surface()),
        target.generation() == states[k].next(),
    ensures
        1 <= registrations(events, k, m),
        states[m].next() == generation_after(target.generation(), registrations(events, k, m)),
        if is_quiet(events, target.surface(), k + 1, m) {
            states[m].live_generation(target.surface()) == Some(target.generation())
        } else {
            match states[m].live_generation(target.surface()) {
                Some(g) => exists|r: int|
                    1 <= r < registrations(events, k, m) && g == #[trigger] generation_after(
                        target.generation(),
                        r,
                    ),
                None => states[m].retired().contains(target.surface())
                    || states[m].retired().len() >= MAX_TARGETS_PER_KIND,
            }
        },
    decreases m,
{
    let surface = target.surface();
    let first = target.generation();
    let e = events[m - 1];
    lemma_registrations(events, k, m - 1);
    if m == k + 1 {
        assert(registrations(events, k, k) == 0);
        assert(generation_after(first, 1) == if first == u64::MAX {
            0
        } else {
            (first + 1) as u64
        });
    } else {
        lemma_trace(states, events, k, m - 1, target);
        let c = registrations(events, k, m - 1);
        let next = states[m - 1].next();
        generations_add_up(first, c, 1);
        assert(generation_after(next, 1) == if next == u64::MAX {
            0
        } else {
            (next + 1) as u64
        });
        if e.surface() == surface {
            assert(!is_quiet(events, surface, k + 1, m));
        } else {
            assert(is_quiet(events, surface, k + 1, m) == is_quiet(events, surface, k + 1, m - 1))
                by {
                if !is_quiet(events, surface, k + 1, m) {
                    let i = choose|i: int|
                        k + 1 <= i < m && (#[trigger] events[i]).surface() == surface;
                    assert(i < m - 1);
                }
            }
        }
        match e {
            Event::Registered(other) => {
                assert(states[m].live(surface.kind) == if surface.kind == other.kind {
                    states[m - 1].live(surface.kind).insert(other.raw, next)
                } else {
                    states[m - 1].live(surface.kind)
                });
                if other == surface {
                    assert(states[m].live_generation(surface) == Some(
                        generation_after(first, c),
                    ));
                } else {
                    assert(states[m].live_generation(surface) == states[m - 1].live_generation(
                        surface,
                    ));
                }
            },
            Event::Retired(other) => {
                assert(states[m].live(surface.kind) == if surface.kind == other.kind {
                    states[m - 1].live(surface.kind).remove(other.raw)
                } else {
                    states[m - 1].live(surface.kind)
                });
                if other != surface {
                    assert(states[m].live_generation(surface) == states[m - 1].live_generation(
                        surface,
                    ));
                }
            },
        }
    }
}

/// A handle stays current exactly until its surface is registered again or
/// retired. From then on it is stale, also when the surface is registered once
/// more, as long as there was room for every tombstone. What happens to other
/// surfaces does not matter.
pub proof fn handles_follow_their_history(
    states: Seq<TargetRegistry>,
    events: Seq<Event>,
    k: int,
    target: TargetRef,
)
    requires
        is_history(states, events),
        events.len() <= u64::MAX,
        0 <= k < events.len(),
        events[k] == Event::Registered(target.surface()),
        target.generation() == states[k].next(),
    ensures
        ({
            let end = states.last();
            let quiet = is_quiet(events, target.surface(), k + 1, events.len() as int);
            &&& end.is_current(target) <==> quiet
            &&& !quiet && end.retired().len() < MAX_TARGETS_PER_KIND ==> end.is_stale(target)
        }),
{
    let n = events.len() as int;
    let first = target.generation();
    let end = states[n];
    lemma_trace(states, events, k, n, target);
    lemma_registrations(events, k, n);
    if !is_quiet(events, target.surface(), k + 1, n) {
        if let Some(g) = end.live_generation(target.surface()) {
            let r = choose|r: int|
                1 <= r < registrations(events, k, n) && g == #[trigger] generation_after(first, r);
            generations_differ(first, 0, r);
            assert(generation_after(first, 0) == first);
        }
    }
}

/// A surface that was never registered is unknown, whatever happened to others.
pub proof fn unregistered_surfaces_stay_unknown(
    states: Seq<TargetRegistry>,
    events: Seq<Event>,
    target: TargetRef,
)
    requires
        is_history(states, events),
        states[0].live_generation(target.surface()) is None,
        !states[0].retired().contains(target.surface()),
        forall|i: int|
            0 <= i < events.len() ==> #[trigger] events[i] != Event::Registered(target.surface()),
    ensures
        !states.last().is_current(target),
        !states.last().is_stale(target),
    decreases events.len(),
{
    let n = events.len() as int;
    let surface = target.surface();
    if n > 0 {
        let (earlier, before) = (states.drop_last(), events.drop_last());
        assert forall|i: int| 0 <= i < before.len() implies #[trigger] before[i]
            != Event::Registered(surface) by {
            assert(before[i] == events[i]);
        }
        assert forall|i: int|
            #![trigger before[i]]
            0 <= i < before.len() implies match before[i] {
            Event::Registered(s) => earlier[i + 1].registers(earlier[i], s),
            Event::Retired(s) => earlier[i + 1].retires(earlier[i], s),
        } by {
            assert(before[i] == events[i]);
        }
        unregistered_surfaces_stay_unknown(earlier, before, target);
        assert(earlier.last() == states[n - 1]);
        let e = events[n - 1];
        assert(e != Event::Registered(surface));
        assert(states[n].live_generation(surface) is None) by {
            assert(states[n].live(surface.kind) == states[n].live(surface.kind));
        }
        assert(states.last() == states[n]);
    }
}

proof fn lemma_room(table: Map<u64, u64>, raw: u64, generation: u64)
    requires
        table.dom().finite(),
        table.len() <= MAX_TARGETS_PER_KIND,
        table.contains_key(raw) || table.len() < MAX_TARGETS_PER_KIND,
    ensures
        table.insert(raw, generation).len() <= MAX_TARGETS_PER_KIND,
{
    assert(table.insert(raw, generation).dom() =~= table.dom().insert(raw));
}

proof fn lemma_removal(table: Map<u64, u64>, raw: u64)
    requires
        table.dom().finite(),
    ensures
        table.remove(raw).len() <= table.len(),
{
    assert(table.remove(raw).dom() =~= table.dom().remove(raw));
}

/// A handle is current while its surface is live under its generation, and stale
/// when the surface is live under another or was retired. A kind is full for a
/// new surface at 1024 live ones, and never for one that it has.
pub proof fn handles_are_current_stale_or_unknown(registry: TargetRegistry, target: TargetRef)
    ensures
        ({
            let s = target.surface();
            let table = registry.live(s.kind);
            let live = table.contains_key(s.raw);
            &&& registry.is_current(target) <==> live && table[s.raw] == target.generation()
            &&& registry.is_stale(target) <==> (live && table[s.raw] != target.generation()) || (
            !live && registry.retired().contains(s))
            &&& registry.is_full_for(s) <==> !live && table.len() >= 1024
            &&& registry.full_error(s.kind) == (TargetError::TooManyTargets {
                max: 1024,
                current: table.len() as usize,
            })
        }),
{
}

} // verus!
