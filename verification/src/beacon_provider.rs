//! Target providers: sources of beacon targets ranked by tier, and the mediator
//! that collects their offers into one snapshot and enters them in the
//! registry.

use crate::beacon_target;
use crate::beacon_target::{
    CommandBlockId, CommandBlockRef, LinkId, LinkRef, PanelRef, Surface, TargetError, TargetRef,
    TargetRegistry, UiNodeId, UiNodeRef, WorkspaceId, WorkspaceRef,
};
use crate::panel::PanelId;
use crate::provider_registry::Slot;
use crate::text;
use vstd::prelude::*;

pub use crate::beacon_target::TargetKind;

verus! {

/// Capability that a registration needs.
pub const TARGET_PROVIDER_CAPABILITY: &'static str = "beacon.target-provider";

/// Name kept for the terminal provider.
pub const CORE_TERMINAL_PROVIDER_NAME: &'static str = "terminal";

/// Most bytes of a provider name.
pub const MAX_TARGET_PROVIDER_NAME_LEN: usize = 32;

/// Most providers of a mediator.
pub const MAX_TARGET_PROVIDERS: usize = 64;

/// Most targets of a snapshot.
pub const MAX_SNAPSHOT_TARGETS: usize = 1024;

/// Trust tier of a provider, in the order of collection.
#[derive(Debug, Clone, Copy, PartialEq, Eq, Structural, Hash, PartialOrd, Ord)]
pub enum ProviderTier {
    /// Built in.
    Core,
    /// Of a plugin.
    Plugin,
    /// Composed from a snapshot.
    Derived,
}

impl ProviderTier {
    /// The place in the order of collection.
    pub open spec fn order(self) -> u8 {
        match self {
            ProviderTier::Core => 0,
            ProviderTier::Plugin => 1,
            ProviderTier::Derived => 2,
        }
    }

    /// The place in the order of collection.
    #[must_use]
    pub fn rank(self) -> (rank: u8)
        ensures
            rank == self.order(),
    {
        match self {
            Self::Core => 0,
            Self::Plugin => 1,
            Self::Derived => 2,
        }
    }

    /// The name of the tier.
    pub open spec fn spelled(self) -> Seq<char> {
        match self {
            ProviderTier::Core => "core"@,
            ProviderTier::Plugin => "plugin"@,
            ProviderTier::Derived => "derived"@,
        }
    }

    /// Spells the tier.
    #[must_use]
    pub fn text(self) -> (out: String)
        ensures
            out@ == self.spelled(),
    {
        match self {
            Self::Core => "core".to_owned(),
            Self::Plugin => "plugin".to_owned(),
            Self::Derived => "derived".to_owned(),
        }
    }
}

/// Target that a provider offers; it gets its generation on collection.
#[derive(Debug, Clone, Copy, PartialEq, Eq, Structural, Hash)]
pub enum ProviderTarget {
    /// A panel.
    Panel(PanelId),
    /// A workspace.
    Workspace(WorkspaceId),
    /// A command block.
    CommandBlock(CommandBlockId),
    /// An interface node.
    UiNode(UiNodeId),
    /// A link.
    Link(LinkId),
}

impl ProviderTarget {
    /// What is offered.
    pub open spec fn surface(self) -> Surface {
        match self {
            ProviderTarget::Panel(id) => Surface { kind: TargetKind::Panel, raw: id.0 },
            ProviderTarget::Workspace(id) => Surface { kind: TargetKind::Workspace, raw: id.0 },
            ProviderTarget::CommandBlock(id) => Surface {
                kind: TargetKind::CommandBlock,
                raw: id.0,
            },
            ProviderTarget::UiNode(id) => Surface { kind: TargetKind::UiNode, raw: id.0 },
            ProviderTarget::Link(id) => Surface { kind: TargetKind::Link, raw: id.0 },
        }
    }

    /// The handle of the target at a generation.
    pub open spec fn at(self, generation: u64) -> TargetRef {
        match self {
            ProviderTarget::Panel(id) => TargetRef::Panel(PanelRef { id, generation }),
            ProviderTarget::Workspace(id) => TargetRef::Workspace(WorkspaceRef { id, generation }),
            ProviderTarget::CommandBlock(id) => TargetRef::CommandBlock(
                CommandBlockRef { id, generation },
            ),
            ProviderTarget::UiNode(id) => TargetRef::UiNode(UiNodeRef { id, generation }),
            ProviderTarget::Link(id) => TargetRef::Link(LinkRef { id, generation }),
        }
    }

    /// The offer that a handle came from.
    pub open spec fn of(target: TargetRef) -> ProviderTarget {
        match target {
            TargetRef::Panel(r) => ProviderTarget::Panel(r.id),
            TargetRef::Workspace(r) => ProviderTarget::Workspace(r.id),
            TargetRef::CommandBlock(r) => ProviderTarget::CommandBlock(r.id),
            TargetRef::UiNode(r) => ProviderTarget::UiNode(r.id),
            TargetRef::Link(r) => ProviderTarget::Link(r.id),
        }
    }

    /// Kind of the target.
    #[must_use]
    pub fn kind(self) -> (kind: TargetKind)
        ensures
            kind == self.surface().kind,
    {
        match self {
            Self::Panel(_) => TargetKind::Panel,
            Self::Workspace(_) => TargetKind::Workspace,
            Self::CommandBlock(_) => TargetKind::CommandBlock,
            Self::UiNode(_) => TargetKind::UiNode,
            Self::Link(_) => TargetKind::Link,
        }
    }

    fn from_ref(target: &TargetRef) -> (offer: Self)
        ensures
            offer == ProviderTarget::of(*target),
    {
        match target {
            TargetRef::Panel(r) => Self::Panel(r.id),
            TargetRef::Workspace(r) => Self::Workspace(r.id),
            TargetRef::CommandBlock(r) => Self::CommandBlock(r.id),
            TargetRef::UiNode(r) => Self::UiNode(r.id),
            TargetRef::Link(r) => Self::Link(r.id),
        }
    }

    /// The spelling `<Kind>(<id>)`.
    pub open spec fn spelled(self) -> Seq<char> {
        match self {
            ProviderTarget::Panel(id) => "Panel("@ + id.spelled() + ")"@,
            ProviderTarget::Workspace(id) => "Workspace("@ + id.spelled() + ")"@,
            ProviderTarget::CommandBlock(id) => "CommandBlock("@ + id.spelled() + ")"@,
            ProviderTarget::UiNode(id) => "UiNode("@ + id.spelled() + ")"@,
            ProviderTarget::Link(id) => "Link("@ + id.spelled() + ")"@,
        }
    }

    /// Spells the offer.
    #[must_use]
    pub fn text(&self) -> (out: String)
        ensures
            out@ == self.spelled(),
    {
        match self {
            Self::Panel(id) => text::joined3("Panel(", id.text().as_str(), ")"),
            Self::Workspace(id) => text::joined3("Workspace(", id.text().as_str(), ")"),
            Self::CommandBlock(id) => text::joined3("CommandBlock(", id.text().as_str(), ")"),
            Self::UiNode(id) => text::joined3("UiNode(", id.text().as_str(), ")"),
            Self::Link(id) => text::joined3("Link(", id.text().as_str(), ")"),
        }
    }
}

/// Refusal on the way from providers to a snapshot; the hint session ends.
#[derive(Debug, Clone, PartialEq, Eq)]
pub enum ProviderError {
    /// The name is empty, too long, or outside the grammar.
    InvalidName {
        /// The name.
        name: String,
        /// What is wrong with it.
        reason: &'static str,
    },
    /// The name is kept for the terminal provider.
    ReservedName {
        /// The name.
        name: String,
    },
    /// No provider has the name.
    UnknownProvider {
        /// The name.
        name: String,
    },
    /// The capability was not granted.
    CapabilityDenied {
        /// The name.
        name: String,
    },
    /// The name is taken.
    DuplicateName {
        /// The name.
        name: String,
    },
    /// The mediator has no room.
    TooManyProviders {
        /// The bound.
        max: usize,
        /// Providers registered.
        current: usize,
    },
    /// The snapshot or a table of the registry has no room; nothing was
    /// entered.
    TooManyTargets {
        /// The bound.
        max: usize,
        /// Targets offered or live.
        current: usize,
    },
    /// An entry of the snapshot is not current any more.
    StaleSnapshot(String),
}

impl ProviderError {
    /// The message of the error.
    pub open spec fn spelled(self) -> Seq<char> {
        match self {
            ProviderError::InvalidName { name, reason } => "invalid target provider name '"@ + name@
                + "': "@ + reason@,
            ProviderError::ReservedName { name } => "target provider name '"@ + name@
                + "' is reserved for the Core terminal provider"@,
            ProviderError::UnknownProvider { name } => "unknown target provider '"@ + name@ + "'"@,
            ProviderError::CapabilityDenied { name } => "registering target provider '"@ + name@
                + "' requires the 'beacon.target-provider' capability"@,
            ProviderError::DuplicateName { name } => "target provider '"@ + name@
                + "' is already registered"@,
            ProviderError::TooManyProviders { max, current } => "too many target providers: max "@
                + text::decimal(max as nat) + ", current "@ + text::decimal(current as nat),
            ProviderError::TooManyTargets { max, current } => "too many snapshot targets: max "@
                + text::decimal(max as nat) + ", current "@ + text::decimal(current as nat),
            ProviderError::StaleSnapshot(detail) => "stale snapshot target: "@ + detail@,
        }
    }

    /// Spells the error.
    #[must_use]
    pub fn text(&self) -> (out: String)
        ensures
            out@ == self.spelled(),
    {
        match self {
            Self::InvalidName { name, reason } => {
                let head = text::joined3("invalid target provider name '", name.as_str(), "': ");
                text::joined(head.as_str(), reason)
            },
            Self::ReservedName { name } => text::joined3(
                "target provider name '",
                name.as_str(),
                "' is reserved for the Core terminal provider",
            ),
            Self::UnknownProvider { name } => text::joined3(
                "unknown target provider '",
                name.as_str(),
                "'",
            ),
            Self::CapabilityDenied { name } => text::joined3(
                "registering target provider '",
                name.as_str(),
                "' requires the 'beacon.target-provider' capability",
            ),
            Self::DuplicateName { name } => text::joined3(
                "target provider '",
                name.as_str(),
                "' is already registered",
            ),
            Self::TooManyProviders { max, current } => text::ending_numbers(
                "too many target providers: max ",
                *max as u64,
                ", current ",
                *current as u64,
            ),
            Self::TooManyTargets { max, current } => text::ending_numbers(
                "too many snapshot targets: max ",
                *max as u64,
                ", current ",
                *current as u64,
            ),
            Self::StaleSnapshot(detail) => text::joined("stale snapshot target: ", detail.as_str()),
        }
    }
}

/// A character of a provider name.
pub open spec fn is_name_char(c: char) -> bool {
    text::is_lower(c) || text::is_digit(c) || c == '.' || c == '-' || c == '_' || c == ':'
}

/// What is wrong with a provider name.
pub open spec fn name_fault(name: Seq<char>) -> Option<Seq<char>> {
    if name.len() == 0 {
        Some("provider name must not be empty"@)
    } else if text::byte_len(name) > MAX_TARGET_PROVIDER_NAME_LEN {
        Some("provider name exceeds 32 bytes"@)
    } else if exists|i: int| 0 <= i < name.len() && !is_name_char(#[trigger] name[i]) {
        Some("provider name must be [a-z0-9._:-]*"@)
    } else {
        None
    }
}

/// Whether the tier may not take the name.
pub open spec fn is_kept(name: Seq<char>, tier: ProviderTier) -> bool {
    name == CORE_TERMINAL_PROVIDER_NAME@ && tier != ProviderTier::Core
}

/// The error reports what is wrong with a name at a tier.
pub open spec fn reports_name(e: ProviderError, wanted: Seq<char>, tier: ProviderTier) -> bool {
    match name_fault(wanted) {
        Some(why) => e matches ProviderError::InvalidName { name, reason } && name@ == wanted
            && reason@ == why,
        None => is_kept(wanted, tier) && (e matches ProviderError::ReservedName { name } && name@
            == wanted),
    }
}

fn invalid_name(name: &str, reason: &'static str) -> (r: Result<(), ProviderError>)
    ensures
        r matches Err(ProviderError::InvalidName { name: bad, reason: why }) && bad@ == name@
            && why == reason,
{
    Err(ProviderError::InvalidName { name: name.to_owned(), reason })
}

/// Checks a provider name: one to 32 bytes of `[a-z0-9._:-]`, and not the kept
/// name unless the tier is the built-in one.
pub fn validate_provider_name(name: &str, tier: ProviderTier) -> (r: Result<(), ProviderError>)
    ensures
        match r {
            Ok(_) => name_fault(name@) is None && !is_kept(name@, tier),
            Err(e) => reports_name(e, name@, tier),
        },
{
    if name.is_empty() {
        return invalid_name(name, "provider name must not be empty");
    }
    if text::byte_count(name) > MAX_TARGET_PROVIDER_NAME_LEN {
        return invalid_name(name, "provider name exceeds 32 bytes");
    }
    let chars = text::chars_of(name);
    let mut i: usize = 0;
    while i < chars.len()
        invariant
            0 <= i <= chars.len(),
            chars@ == name@,
            name@.len() > 0,
            text::byte_len(name@) <= MAX_TARGET_PROVIDER_NAME_LEN,
            forall|j: int| 0 <= j < i ==> is_name_char(#[trigger] name@[j]),
        decreases chars.len() - i,
    {
        let c = chars[i];
        if !('a' <= c && c <= 'z' || '0' <= c && c <= '9' || c == '.' || c == '-' || c == '_' || c
            == ':') {
            assert(!is_name_char(name@[i as int]));
            return invalid_name(name, "provider name must be [a-z0-9._:-]*");
        }
        i = i + 1;
    }
    if text::same_text(name, CORE_TERMINAL_PROVIDER_NAME) && tier != ProviderTier::Core {
        return Err(ProviderError::ReservedName { name: name.to_owned() });
    }
    Ok(())
}

/// A source of beacon targets. It sees no registry: it names its tier and
/// itself, and enumerates its targets as a function of its own state.
pub trait TargetProvider: Send + Sync {
    /// The tier of the provider.
    closed spec fn level(&self) -> ProviderTier {
        arbitrary()
    }

    /// The name of the provider.
    closed spec fn label(&self) -> Seq<char> {
        arbitrary()
    }

    /// The targets of the provider, in order.
    closed spec fn offers(&self) -> Seq<ProviderTarget> {
        arbitrary()
    }

    /// The tier of the provider.
    fn tier(&self) -> (tier: ProviderTier)
        ensures
            tier == self.level(),
    ;

    /// The name of the provider.
    fn name(&self) -> (name: &str)
        ensures
            name@ == self.label(),
    ;

    /// The targets of the provider, in order.
    fn collect(&self) -> (targets: Vec<ProviderTarget>)
        ensures
            targets@ == self.offers(),
    ;
}

/// The terminal as a provider: it offers its command blocks and nothing else.
#[derive(Debug, PartialEq, Eq)]
pub struct CommandBlockProvider {
    blocks: Vec<CommandBlockId>,
}

/// The offers of a run of command blocks.
pub open spec fn block_offers(blocks: Seq<CommandBlockId>) -> Seq<ProviderTarget> {
    Seq::new(blocks.len(), |i: int| ProviderTarget::CommandBlock(blocks[i]))
}

impl View for CommandBlockProvider {
    type V = Seq<CommandBlockId>;

    closed spec fn view(&self) -> Seq<CommandBlockId> {
        self.blocks@
    }
}

impl CommandBlockProvider {
    /// Creates the provider of the given blocks.
    #[must_use]
    pub fn new(blocks: Vec<CommandBlockId>) -> (provider: Self)
        ensures
            provider@ == blocks@,
    {
        Self { blocks }
    }

    /// The blocks in order.
    #[must_use]
    pub fn blocks(&self) -> (blocks: &[CommandBlockId])
        ensures
            blocks@ == self@,
    {
        self.blocks.as_slice()
    }

    /// Number of blocks.
    #[must_use]
    pub fn len(&self) -> (n: usize)
        ensures
            n == self@.len(),
    {
        self.blocks.len()
    }

    /// Whether there is no block.
    #[must_use]
    pub fn is_empty(&self) -> (empty: bool)
        ensures
            empty == (self@.len() == 0),
    {
        self.blocks.len() == 0
    }
}

impl TargetProvider for CommandBlockProvider {
    open spec fn level(&self) -> ProviderTier {
        ProviderTier::Core
    }

    open spec fn label(&self) -> Seq<char> {
        CORE_TERMINAL_PROVIDER_NAME@
    }

    open spec fn offers(&self) -> Seq<ProviderTarget> {
        block_offers(self@)
    }

    fn tier(&self) -> (tier: ProviderTier) {
        ProviderTier::Core
    }

    fn name(&self) -> (name: &str) {
        CORE_TERMINAL_PROVIDER_NAME
    }

    fn collect(&self) -> (targets: Vec<ProviderTarget>) {
        let mut targets: Vec<ProviderTarget> = Vec::new();
        while targets.len() < self.blocks.len()
            invariant
                targets@.len() <= self.blocks@.len(),
                forall|i: int|
                    0 <= i < targets@.len() ==> targets@[i] == ProviderTarget::CommandBlock(
                        self.blocks@[i],
                    ),
            decreases self.blocks.len() - targets.len(),
        {
            let i: usize = targets.len();
            targets.push(ProviderTarget::CommandBlock(self.blocks[i]));
        }
        assert(targets@ =~= self.offers());
        targets
    }
}

impl Default for CommandBlockProvider {
    fn default() -> (provider: Self)
        ensures
            provider@ == Seq::<CommandBlockId>::empty(),
    {
        Self { blocks: Vec::new() }
    }
}

impl Clone for CommandBlockProvider {
    fn clone(&self) -> (provider: Self)
        ensures
            provider@ == self@,
    {
        let provider = Self { blocks: self.blocks.clone() };
        assert(provider@ =~= self@);
        provider
    }
}

/// A provider composed from the targets of a snapshot.
#[derive(Debug, PartialEq, Eq)]
pub struct DerivedProvider {
    name: String,
    targets: Vec<ProviderTarget>,
}

impl DerivedProvider {
    /// The name of the provider.
    pub closed spec fn title(self) -> Seq<char> {
        self.name@
    }

    /// The targets of the provider.
    pub closed spec fn composed(self) -> Seq<ProviderTarget> {
        self.targets@
    }

    /// Creates a provider of the given targets.
    pub fn new(name: &str, targets: Vec<ProviderTarget>) -> (r: Result<Self, ProviderError>)
        ensures
            match r {
                Ok(provider) => name_fault(name@) is None && !is_kept(name@, ProviderTier::Derived)
                    && provider.title() == name@ && provider.composed() == targets@,
                Err(e) => reports_name(e, name@, ProviderTier::Derived),
            },
    {
        match validate_provider_name(name, ProviderTier::Derived) {
            Ok(_) => Ok(Self { name: name.to_owned(), targets }),
            Err(e) => Err(e),
        }
    }

    /// Number of targets.
    #[must_use]
    pub fn len(&self) -> (n: usize)
        ensures
            n == self.composed().len(),
    {
        self.targets.len()
    }

    /// Whether there is no target.
    #[must_use]
    pub fn is_empty(&self) -> (empty: bool)
        ensures
            empty == (self.composed().len() == 0),
    {
        self.targets.len() == 0
    }
}

impl TargetProvider for DerivedProvider {
    open spec fn level(&self) -> ProviderTier {
        ProviderTier::Derived
    }

    open spec fn label(&self) -> Seq<char> {
        self.title()
    }

    open spec fn offers(&self) -> Seq<ProviderTarget> {
        self.composed()
    }

    fn tier(&self) -> (tier: ProviderTier) {
        ProviderTier::Derived
    }

    fn name(&self) -> (name: &str) {
        self.name.as_str()
    }

    fn collect(&self) -> (targets: Vec<ProviderTarget>) {
        let targets = self.targets.clone();
        assert(targets@ =~= self.targets@);
        targets
    }
}

impl Default for DerivedProvider {
    fn default() -> (provider: Self)
        ensures
            provider.title() == Seq::<char>::empty(),
            provider.composed() == Seq::<ProviderTarget>::empty(),
    {
        Self { name: String::new(), targets: Vec::new() }
    }
}

impl Clone for DerivedProvider {
    fn clone(&self) -> (provider: Self)
        ensures
            provider.title() == self.title(),
            provider.composed() == self.composed(),
    {
        let provider = Self { name: self.name.clone(), targets: self.targets.clone() };
        assert(provider.targets@ =~= self.targets@);
        provider
    }
}

/// One entry of a snapshot: a handle and where it came from.
#[derive(Debug, PartialEq, Eq)]
pub struct SnapshotEntry {
    target: TargetRef,
    tier: ProviderTier,
    provider: String,
}

/// What a snapshot entry says.
pub struct Collected {
    /// The handle.
    pub target: TargetRef,
    /// Tier of the provider.
    pub tier: ProviderTier,
    /// Name of the provider.
    pub provider: Seq<char>,
}

impl View for SnapshotEntry {
    type V = Collected;

    closed spec fn view(&self) -> Collected {
        Collected { target: self.target, tier: self.tier, provider: self.provider@ }
    }
}

impl SnapshotEntry {
    /// The handle.
    #[must_use]
    pub fn target(&self) -> (target: TargetRef)
        ensures
            target == self@.target,
    {
        self.target
    }

    /// Tier of the provider.
    #[must_use]
    pub fn tier(&self) -> (tier: ProviderTier)
        ensures
            tier == self@.tier,
    {
        self.tier
    }

    /// Name of the provider.
    #[must_use]
    pub fn provider(&self) -> (name: &str)
        ensures
            name@ == self@.provider,
    {
        self.provider.as_str()
    }
}

impl Clone for SnapshotEntry {
    fn clone(&self) -> (entry: Self)
        ensures
            entry@ == self@,
    {
        Self { target: self.target, tier: self.tier, provider: self.provider.clone() }
    }
}

/// What a run of entries says.
pub open spec fn collected_in(entries: Seq<SnapshotEntry>) -> Seq<Collected> {
    Seq::new(entries.len(), |i: int| entries[i]@)
}

/// The handles of the entries of a tier, in order.
pub open spec fn handles_of_tier(entries: Seq<Collected>, tier: ProviderTier) -> Seq<TargetRef>
    decreases entries.len(),
{
    if entries.len() == 0 {
        Seq::empty()
    } else if entries.last().tier == tier {
        handles_of_tier(entries.drop_last(), tier).push(entries.last().target)
    } else {
        handles_of_tier(entries.drop_last(), tier)
    }
}

/// The first entry whose handle is not current, or the length when all are.
pub open spec fn first_dead(entries: Seq<Collected>, registry: TargetRegistry, from: int) -> int
    decreases entries.len() - from,
{
    if from >= entries.len() {
        entries.len() as int
    } else if !registry.is_current(entries[from].target) {
        from
    } else {
        first_dead(entries, registry, from + 1)
    }
}

/// How the registry refuses a handle that is not current.
pub open spec fn refusal(registry: TargetRegistry, target: TargetRef) -> Seq<char> {
    if registry.is_stale(target) {
        "stale beacon target: "@ + target.spelled()
    } else {
        "unknown beacon target: "@ + target.spelled()
    }
}

/// The targets collected for one hint session, in collection order.
#[derive(Debug, PartialEq, Eq)]
pub struct TargetSnapshot {
    entries: Vec<SnapshotEntry>,
}

impl View for TargetSnapshot {
    type V = Seq<Collected>;

    closed spec fn view(&self) -> Seq<Collected> {
        collected_in(self.entries@)
    }
}

impl TargetSnapshot {
    /// Number of entries.
    #[must_use]
    pub fn len(&self) -> (n: usize)
        ensures
            n == self@.len(),
    {
        self.entries.len()
    }

    /// Whether there is no entry.
    #[must_use]
    pub fn is_empty(&self) -> (empty: bool)
        ensures
            empty == (self@.len() == 0),
    {
        self.entries.len() == 0
    }

    /// The entries in collection order.
    #[must_use]
    pub fn entries(&self) -> (entries: &[SnapshotEntry])
        ensures
            collected_in(entries@) == self@,
    {
        self.entries.as_slice()
    }

    /// The handles in collection order.
    #[must_use]
    pub fn targets(&self) -> (targets: Vec<TargetRef>)
        ensures
            targets@ == Seq::new(self@.len(), |i: int| self@[i].target),
    {
        let mut targets: Vec<TargetRef> = Vec::new();
        while targets.len() < self.entries.len()
            invariant
                targets@.len() <= self.entries@.len(),
                forall|i: int| 0 <= i < targets@.len() ==> targets@[i] == self@[i].target,
            decreases self.entries.len() - targets.len(),
        {
            let i: usize = targets.len();
            targets.push(self.entries[i].target);
        }
        assert(targets@ =~= Seq::new(self@.len(), |i: int| self@[i].target));
        targets
    }

    /// The handles of one tier, in collection order.
    #[must_use]
    pub fn targets_of_tier(&self, tier: ProviderTier) -> (targets: Vec<TargetRef>)
        ensures
            targets@ == handles_of_tier(self@, tier),
    {
        let mut targets: Vec<TargetRef> = Vec::new();
        let mut i: usize = 0;
        assert(self@.take(0) =~= Seq::<Collected>::empty());
        while i < self.entries.len()
            invariant
                0 <= i <= self.entries@.len(),
                targets@ == handles_of_tier(self@.take(i as int), tier),
            decreases self.entries.len() - i,
        {
            assert(self@.take(i + 1).drop_last() =~= self@.take(i as int));
            assert(self@.take(i + 1).last() == self.entries@[i as int]@);
            if self.entries[i].tier == tier {
                targets.push(self.entries[i].target);
            }
            i = i + 1;
        }
        assert(self@.take(i as int) =~= self@);
        targets
    }

    /// The offers that the handles came from, in collection order.
    #[must_use]
    pub fn offered(&self) -> (offers: Vec<ProviderTarget>)
        ensures
            offers@ == Seq::new(self@.len(), |i: int| ProviderTarget::of(self@[i].target)),
    {
        let mut offers: Vec<ProviderTarget> = Vec::new();
        while offers.len() < self.entries.len()
            invariant
                offers@.len() <= self.entries@.len(),
                forall|i: int|
                    0 <= i < offers@.len() ==> offers@[i] == ProviderTarget::of(self@[i].target),
            decreases self.entries.len() - offers.len(),
        {
            let i: usize = offers.len();
            offers.push(ProviderTarget::from_ref(&self.entries[i].target));
        }
        assert(offers@ =~= Seq::new(self@.len(), |i: int| ProviderTarget::of(self@[i].target)));
        offers
    }

    /// Checks every handle against the registry; fails on the first one that is
    /// not current.
    pub fn resolve_all(&self, registry: &TargetRegistry) -> (r: Result<
        Vec<TargetRef>,
        ProviderError,
    >)
        ensures
            ({
                let k = first_dead(self@, *registry, 0);
                if k >= self@.len() {
                    r matches Ok(targets) && targets@ == Seq::new(
                        self@.len(),
                        |i: int| self@[i].target,
                    )
                } else {
                    r matches Err(ProviderError::StaleSnapshot(detail)) && detail@ == refusal(
                        *registry,
                        self@[k].target,
                    )
                }
            }),
    {
        let mut live: Vec<TargetRef> = Vec::new();
        while live.len() < self.entries.len()
            invariant
                live@.len() <= self.entries@.len(),
                forall|i: int| 0 <= i < live@.len() ==> live@[i] == self@[i].target,
                first_dead(self@, *registry, 0) == first_dead(
                    self@,
                    *registry,
                    live@.len() as int,
                ),
            decreases self.entries.len() - live.len(),
        {
            let i: usize = live.len();
            assert(self@[i as int] == self.entries@[i as int]@);
            match registry.resolve(&self.entries[i].target) {
                Ok(target) => {
                    live.push(target);
                },
                Err(e) => {
                    return Err(ProviderError::StaleSnapshot(e.text()));
                },
            }
        }
        assert(live@ =~= Seq::new(self@.len(), |i: int| self@[i].target));
        Ok(live)
    }
}

impl Default for TargetSnapshot {
    fn default() -> (snapshot: Self)
        ensures
            snapshot@ == Seq::<Collected>::empty(),
    {
        let snapshot = Self { entries: Vec::new() };
        assert(snapshot@ =~= Seq::<Collected>::empty());
        snapshot
    }
}

impl Clone for TargetSnapshot {
    fn clone(&self) -> (snapshot: Self)
        ensures
            snapshot@ == self@,
    {
        let mut entries: Vec<SnapshotEntry> = Vec::new();
        while entries.len() < self.entries.len()
            invariant
                entries@.len() <= self.entries@.len(),
                forall|i: int|
                    0 <= i < entries@.len() ==> (#[trigger] entries@[i])@ == self.entries@[i]@,
            decreases self.entries.len() - entries.len(),
        {
            let i: usize = entries.len();
            entries.push(self.entries[i].clone());
        }
        let snapshot = Self { entries };
        assert(snapshot@ =~= self@);
        snapshot
    }
}

/// What a registered provider is to the mediator.
pub struct Source {
    /// Tier of the provider.
    pub tier: ProviderTier,
    /// Name of the provider.
    pub name: Seq<char>,
    /// Targets of the provider.
    pub offers: Seq<ProviderTarget>,
}

/// The sources of a list of providers.
pub open spec fn sources_of(slots: Seq<Slot<Box<dyn TargetProvider>>>) -> Seq<Source>
    decreases slots.len(),
{
    if slots.len() == 0 {
        Seq::empty()
    } else {
        sources_of(slots.drop_last()).push(
            Source {
                tier: slots.last().provider.level(),
                name: slots.last().provider.label(),
                offers: slots.last().provider.offers(),
            },
        )
    }
}

proof fn lemma_sources_index(slots: Seq<Slot<Box<dyn TargetProvider>>>)
    ensures
        sources_of(slots).len() == slots.len(),
        forall|i: int|
            0 <= i < slots.len() ==> (#[trigger] sources_of(slots)[i]).tier
                == slots[i].provider.level() && sources_of(slots)[i].name
                == slots[i].provider.label() && sources_of(slots)[i].offers
                == slots[i].provider.offers(),
    decreases slots.len(),
{
    if slots.len() > 0 {
        lemma_sources_index(slots.drop_last());
    }
}

/// Whether a source has the name.
pub open spec fn has_name(sources: Seq<Source>, name: Seq<char>) -> bool {
    exists|i: int| 0 <= i < sources.len() && (#[trigger] sources[i]).name == name
}

/// One offer on its way into a snapshot.
pub struct Offer {
    /// Tier of the provider.
    pub tier: ProviderTier,
    /// Name of the provider.
    pub provider: Seq<char>,
    /// The target.
    pub target: ProviderTarget,
}

/// The offers of one source.
pub open spec fn offers_of(source: Source) -> Seq<Offer> {
    Seq::new(
        source.offers.len(),
        |i: int| Offer { tier: source.tier, provider: source.name, target: source.offers[i] },
    )
}

/// The offers of the sources of a tier, in registration order.
pub open spec fn offers_at(sources: Seq<Source>, tier: ProviderTier) -> Seq<Offer>
    decreases sources.len(),
{
    if sources.len() == 0 {
        Seq::empty()
    } else if sources.last().tier == tier {
        offers_at(sources.drop_last(), tier) + offers_of(sources.last())
    } else {
        offers_at(sources.drop_last(), tier)
    }
}

/// Every offer in collection order: by tier, then by registration, then as
/// offered.
pub open spec fn staged_from(sources: Seq<Source>) -> Seq<Offer> {
    offers_at(sources, ProviderTier::Core) + offers_at(sources, ProviderTier::Plugin) + offers_at(
        sources,
        ProviderTier::Derived,
    )
}

/// The table of a kind after the first `n` offers are entered.
pub open spec fn entered(
    registry: TargetRegistry,
    offers: Seq<Offer>,
    n: int,
    kind: TargetKind,
) -> Map<u64, u64>
    decreases n,
{
    if n <= 0 {
        registry.live(kind)
    } else if offers[n - 1].target.surface().kind == kind {
        entered(registry, offers, n - 1, kind).insert(
            offers[n - 1].target.surface().raw,
            beacon_target::generation_after(registry.next(), n - 1),
        )
    } else {
        entered(registry, offers, n - 1, kind)
    }
}

/// Whether every table holds its live targets and the offers together.
pub open spec fn has_room(registry: TargetRegistry, offers: Seq<Offer>) -> bool {
    forall|kind: TargetKind|
        (#[trigger] entered(registry, offers, offers.len() as int, kind)).len()
            <= beacon_target::MAX_TARGETS_PER_KIND
}

/// `after` is `before` with every offer entered.
pub open spec fn enters(after: TargetRegistry, before: TargetRegistry, offers: Seq<Offer>) -> bool {
    &&& forall|kind: TargetKind| #[trigger]
        after.live(kind) == entered(before, offers, offers.len() as int, kind)
    &&& after.retired() == before.retired()
    &&& after.next() == beacon_target::generation_after(before.next(), offers.len() as int)
}

/// The snapshot of offers entered from generation `first` on.
pub open spec fn snapshot_from(offers: Seq<Offer>, first: u64) -> Seq<Collected> {
    Seq::new(
        offers.len(),
        |k: int|
            Collected {
                target: offers[k].target.at(beacon_target::generation_after(first, k)),
                tier: offers[k].tier,
                provider: offers[k].provider,
            },
    )
}

proof fn lemma_entered(registry: TargetRegistry, offers: Seq<Offer>, n: int, kind: TargetKind)
    requires
        registry.live(kind).dom().finite(),
    ensures
        entered(registry, offers, n, kind).dom().finite(),
    decreases n,
{
    if n > 0 {
        lemma_entered(registry, offers, n - 1, kind);
        let before = entered(registry, offers, n - 1, kind);
        let raw = offers[n - 1].target.surface().raw;
        if offers[n - 1].target.surface().kind == kind {
            assert(entered(registry, offers, n, kind).dom() =~= before.dom().insert(raw));
        }
    }
}

proof fn lemma_entered_grows(
    registry: TargetRegistry,
    offers: Seq<Offer>,
    m: int,
    n: int,
    kind: TargetKind,
)
    requires
        registry.live(kind).dom().finite(),
        0 <= m <= n,
    ensures
        entered(registry, offers, m, kind).len() <= entered(registry, offers, n, kind).len(),
    decreases n - m,
{
    if m < n {
        lemma_entered_grows(registry, offers, m, n - 1, kind);
        lemma_entered(registry, offers, n - 1, kind);
        let before = entered(registry, offers, n - 1, kind);
        let raw = offers[n - 1].target.surface().raw;
        if offers[n - 1].target.surface().kind == kind {
            assert(entered(registry, offers, n, kind).dom() =~= before.dom().insert(raw));
        }
    }
}

struct Staged {
    tier: ProviderTier,
    provider: String,
    target: ProviderTarget,
}

spec fn offers_in(staged: Seq<Staged>) -> Seq<Offer> {
    Seq::new(
        staged.len(),
        |i: int|
            Offer {
                tier: staged[i].tier,
                provider: staged[i].provider@,
                target: staged[i].target,
            },
    )
}

/// Enters one offer in the registry.
fn insert_offer(registry: &mut TargetRegistry, offer: &ProviderTarget) -> (r: Result<
    TargetRef,
    ProviderError,
>)
    requires
        old(registry).wf(),
    ensures
        final(registry).wf(),
        if old(registry).is_full_for(offer.surface()) {
            r == Err::<TargetRef, ProviderError>(
                ProviderError::TooManyTargets {
                    max: beacon_target::MAX_TARGETS_PER_KIND,
                    current: beacon_target::MAX_TARGETS_PER_KIND,
                },
            )
        } else {
            r == Ok::<TargetRef, ProviderError>(offer.at(old(registry).next())) && final(
                registry
            ).registers(*old(registry), offer.surface())
        },
{
    proof {
        beacon_target::registries_are_bounded(*registry, offer.surface().kind);
    }
    let inserted = match offer {
        ProviderTarget::Panel(id) => match registry.insert_panel(*id) {
            Ok(r) => Ok(TargetRef::Panel(r)),
            Err(e) => Err(e),
        },
        ProviderTarget::Workspace(id) => match registry.insert_workspace(*id) {
            Ok(r) => Ok(TargetRef::Workspace(r)),
            Err(e) => Err(e),
        },
        ProviderTarget::CommandBlock(id) => match registry.insert_block(*id) {
            Ok(r) => Ok(TargetRef::CommandBlock(r)),
            Err(e) => Err(e),
        },
        ProviderTarget::UiNode(id) => match registry.insert_node(*id) {
            Ok(r) => Ok(TargetRef::UiNode(r)),
            Err(e) => Err(e),
        },
        ProviderTarget::Link(id) => match registry.insert_link(*id) {
            Ok(r) => Ok(TargetRef::Link(r)),
            Err(e) => Err(e),
        },
    };
    match inserted {
        Ok(target) => Ok(target),
        Err(TargetError::TooManyTargets { max, current }) => Err(
            ProviderError::TooManyTargets { max, current },
        ),
        Err(TargetError::UnknownTarget(detail)) => Err(ProviderError::StaleSnapshot(detail)),
        Err(TargetError::StaleTarget(detail)) => Err(ProviderError::StaleSnapshot(detail)),
    }
}

/// The registered providers, and the only writer of the registry.
pub struct ProviderMediator {
    providers: Vec<Slot<Box<dyn TargetProvider>>>,
}

impl ProviderMediator {
    /// The registered providers, in registration order.
    pub closed spec fn sources(self) -> Seq<Source> {
        sources_of(self.providers@)
    }

    /// Names are valid for their tiers and stand once, and there are no more
    /// providers than the bound.
    pub open spec fn wf(self) -> bool {
        &&& self.sources().len() <= MAX_TARGET_PROVIDERS
        &&& forall|i: int|
            0 <= i < self.sources().len() ==> name_fault((#[trigger] self.sources()[i]).name)
                is None && !is_kept(self.sources()[i].name, self.sources()[i].tier)
        &&& forall|i: int, j: int|
            0 <= i < j < self.sources().len() ==> (#[trigger] self.sources()[i]).name != (
            #[trigger] self.sources()[j]).name
    }

    /// Creates a mediator without providers.
    #[must_use]
    pub fn new() -> (mediator: Self)
        ensures
            mediator.wf(),
            mediator.sources() == Seq::<Source>::empty(),
    {
        let mediator = Self { providers: Vec::new() };
        assert(mediator.sources() =~= Seq::<Source>::empty());
        mediator
    }

    /// Creates a mediator that holds the terminal provider of the blocks.
    #[must_use]
    pub fn with_core(blocks: Vec<CommandBlockId>) -> (mediator: Self)
        ensures
            mediator.wf(),
            mediator.sources() == seq![
                Source {
                    tier: ProviderTier::Core,
                    name: CORE_TERMINAL_PROVIDER_NAME@,
                    offers: block_offers(blocks@),
                },
            ],
    {
        let mut mediator = Self::new();
        proof {
            lemma_core_name();
        }
        let _registered = mediator.register(Box::new(CommandBlockProvider::new(blocks)), true);
        assert(mediator.sources() =~= seq![
            Source {
                tier: ProviderTier::Core,
                name: CORE_TERMINAL_PROVIDER_NAME@,
                offers: block_offers(blocks@),
            },
        ]);
        mediator
    }

    fn position(&self, name: &str) -> (k: usize)
        ensures
            k <= self.sources().len(),
            self.sources().len() == self.providers@.len(),
            k < self.sources().len() ==> self.sources()[k as int].name == name@,
            forall|j: int| 0 <= j < k ==> (#[trigger] self.sources()[j]).name != name@,
    {
        proof {
            lemma_sources_index(self.providers@);
        }
        let mut i: usize = 0;
        while i < self.providers.len()
            invariant
                0 <= i <= self.providers.len(),
                self.sources().len() == self.providers.len(),
                forall|k: int|
                    0 <= k < self.providers.len() ==> (#[trigger] self.sources()[k]).name
                        == self.providers@[k].provider.label(),
                forall|j: int| 0 <= j < i ==> (#[trigger] self.sources()[j]).name != name@,
            decreases self.providers.len() - i,
        {
            if text::same_text(self.providers[i].provider.name(), name) {
                assert(self.sources()[i as int].name == name@);
                return i;
            }
            assert(self.sources()[i as int].name != name@);
            i = i + 1;
        }
        i
    }

    /// Registers a provider. The name must be valid for the tier, the
    /// capability granted, the name free, and there must be room; they are
    /// asked in this order.
    pub fn register(
        &mut self,
        provider: Box<dyn TargetProvider>,
        has_target_provider_capability: bool,
    ) -> (r: Result<(), ProviderError>)
        requires
            old(self).wf(),
        ensures
            final(self).wf(),
            ({
                let wanted = provider.label();
                let before = old(self).sources();
                if name_fault(wanted) is Some || is_kept(wanted, provider.level()) {
                    &&& r matches Err(e) && reports_name(e, wanted, provider.level())
                    &&& final(self).sources() == before
                } else if !has_target_provider_capability {
                    &&& r matches Err(ProviderError::CapabilityDenied { name }) && name@ == wanted
                    &&& final(self).sources() == before
                } else if has_name(before, wanted) {
                    &&& r matches Err(ProviderError::DuplicateName { name }) && name@ == wanted
                    &&& final(self).sources() == before
                } else if before.len() >= MAX_TARGET_PROVIDERS {
                    &&& r == Err::<(), ProviderError>(
                        ProviderError::TooManyProviders {
                            max: MAX_TARGET_PROVIDERS,
                            current: before.len() as usize,
                        },
                    )
                    &&& final(self).sources() == before
                } else {
                    &&& r is Ok
                    &&& final(self).sources() == before.push(
                        Source {
                            tier: provider.level(),
                            name: wanted,
                            offers: provider.offers(),
                        },
                    )
                }
            }),
    {
        let tier = provider.tier();
        let name: String = provider.name().to_owned();
        match validate_provider_name(name.as_str(), tier) {
            Ok(_) => {},
            Err(e) => return Err(e),
        }
        if !has_target_provider_capability {
            return Err(ProviderError::CapabilityDenied { name });
        }
        let k: usize = self.position(name.as_str());
        if k < self.providers.len() {
            return Err(ProviderError::DuplicateName { name });
        }
        if self.providers.len() >= MAX_TARGET_PROVIDERS {
            return Err(
                ProviderError::TooManyProviders {
                    max: MAX_TARGET_PROVIDERS,
                    current: self.providers.len(),
                },
            );
        }
        let slot = Slot { provider };
        self.providers.push(slot);
        assert(self.providers@.last() == slot);
        assert(self.providers@.drop_last() =~= old(self).providers@);
        Ok(())
    }

    /// The provider of a name (spelling unchecked).
    #[must_use]
    pub fn resolve(&self, name: &str) -> (found: Option<&dyn TargetProvider>)
        ensures
            match found {
                Some(p) => p.label() == name@ && exists|i: int|
                    0 <= i < self.sources().len() && (#[trigger] self.sources()[i]).name == name@
                        && self.sources()[i].tier == p.level() && self.sources()[i].offers
                        == p.offers(),
                None => !has_name(self.sources(), name@),
            },
    {
        proof {
            lemma_sources_index(self.providers@);
        }
        let k: usize = self.position(name);
        if k < self.providers.len() {
            let found = Some(&*self.providers[k].provider);
            assert(self.sources()[k as int].name == name@);
            found
        } else {
            None
        }
    }

    /// The provider of a name, or the error that there is none.
    pub fn require(&self, name: &str) -> (r: Result<&dyn TargetProvider, ProviderError>)
        ensures
            match r {
                Ok(p) => p.label() == name@ && exists|i: int|
                    0 <= i < self.sources().len() && (#[trigger] self.sources()[i]).name == name@
                        && self.sources()[i].tier == p.level() && self.sources()[i].offers
                        == p.offers(),
                Err(ProviderError::UnknownProvider { name: missing }) => missing@ == name@
                    && !has_name(self.sources(), name@),
                Err(_) => false,
            },
    {
        match self.resolve(name) {
            Some(p) => {
                let found = Ok(p);
                found
            },
            None => Err(ProviderError::UnknownProvider { name: name.to_owned() }),
        }
    }

    /// Registered names in registration order.
    #[must_use]
    pub fn names(&self) -> (names: Vec<String>)
        ensures
            names@.len() == self.sources().len(),
            forall|i: int|
                0 <= i < names@.len() ==> (#[trigger] names@[i])@ == self.sources()[i].name,
    {
        let mut names: Vec<String> = Vec::new();
        proof {
            lemma_sources_index(self.providers@);
        }
        while names.len() < self.providers.len()
            invariant
                names@.len() <= self.providers@.len(),
                self.sources().len() == self.providers@.len(),
                forall|k: int|
                    0 <= k < self.providers.len() ==> (#[trigger] self.sources()[k]).name
                        == self.providers@[k].provider.label(),
                forall|i: int|
                    0 <= i < names@.len() ==> (#[trigger] names@[i])@ == self.sources()[i].name,
            decreases self.providers.len() - names.len(),
        {
            let i: usize = names.len();
            names.push(self.providers[i].provider.name().to_owned());
            assert(self.sources()[i as int].name == names@[i as int]@);
        }
        names
    }

    /// Number of registered providers.
    #[must_use]
    pub fn len(&self) -> (n: usize)
        ensures
            n == self.sources().len(),
    {
        proof {
            lemma_sources_index(self.providers@);
        }
        self.providers.len()
    }

    /// Whether no provider is registered.
    #[must_use]
    pub fn is_empty(&self) -> (empty: bool)
        ensures
            empty == (self.sources().len() == 0),
    {
        self.len() == 0
    }

    /// Appends the offers of a tier.
    fn stage(&self, tier: ProviderTier, staged: &mut Vec<Staged>)
        ensures
            offers_in(final(staged)@) == offers_in(old(staged)@) + offers_at(self.sources(), tier),
    {
        proof {
            lemma_sources_index(self.providers@);
        }
        let mut i: usize = 0;
        assert(self.sources().take(0) =~= Seq::<Source>::empty());
        assert(offers_in(staged@) + offers_at(self.sources().take(0), tier) =~= offers_in(staged@));
        while i < self.providers.len()
            invariant
                0 <= i <= self.providers.len(),
                self.sources().len() == self.providers@.len(),
                forall|k: int|
                    0 <= k < self.providers.len() ==> (#[trigger] self.sources()[k]).tier
                        == self.providers@[k].provider.level() && self.sources()[k].name
                        == self.providers@[k].provider.label() && self.sources()[k].offers
                        == self.providers@[k].provider.offers(),
                offers_in(staged@) == offers_in(old(staged)@) + offers_at(
                    self.sources().take(i as int),
                    tier,
                ),
            decreases self.providers.len() - i,
        {
            let ghost source = self.sources()[i as int];
            assert(self.sources().take(i + 1).drop_last() =~= self.sources().take(i as int));
            assert(self.sources().take(i + 1).last() == source);
            if self.providers[i].provider.tier() == tier {
                let name: String = self.providers[i].provider.name().to_owned();
                let targets = self.providers[i].provider.collect();
                let ghost before = offers_in(staged@);
                let mut k: usize = 0;
                assert(before + offers_of(source).take(0) =~= before);
                while k < targets.len()
                    invariant
                        0 <= k <= targets.len(),
                        targets@ == source.offers,
                        name@ == source.name,
                        tier == source.tier,
                        offers_in(staged@) == before + offers_of(source).take(k as int),
                    decreases targets.len() - k,
                {
                    let ghost earlier = staged@;
                    staged.push(Staged { tier, provider: name.clone(), target: targets[k] });
                    assert(offers_in(staged@) =~= offers_in(earlier).push(
                        offers_of(source)[k as int],
                    ));
                    assert(offers_of(source).take(k + 1) =~= offers_of(source).take(k as int).push(
                        offers_of(source)[k as int],
                    ));
                    assert(offers_in(staged@) =~= before + offers_of(source).take(k + 1));
                    k = k + 1;
                }
                assert(offers_of(source).take(k as int) =~= offers_of(source));
                assert(offers_in(staged@) =~= offers_in(old(staged)@) + offers_at(
                    self.sources().take(i + 1),
                    tier,
                ));
            }
            i = i + 1;
        }
        assert(self.sources().take(i as int) =~= self.sources());
    }

    /// Collects the offers of all providers and enters them in the registry.
    /// When the snapshot or a table has no room for them, nothing is entered.
    pub fn collect(&self, registry: &mut TargetRegistry) -> (r: Result<
        TargetSnapshot,
        ProviderError,
    >)
        requires
            old(registry).wf(),
        ensures
            final(registry).wf(),
            ({
                let offers = staged_from(self.sources());
                if offers.len() > MAX_SNAPSHOT_TARGETS {
                    &&& r == Err::<TargetSnapshot, ProviderError>(
                        ProviderError::TooManyTargets {
                            max: MAX_SNAPSHOT_TARGETS,
                            current: offers.len() as usize,
                        },
                    )
                    &&& final(registry).same_as(*old(registry))
                } else if !has_room(*old(registry), offers) {
                    &&& r == Err::<TargetSnapshot, ProviderError>(
                        ProviderError::TooManyTargets {
                            max: beacon_target::MAX_TARGETS_PER_KIND,
                            current: beacon_target::MAX_TARGETS_PER_KIND,
                        },
                    )
                    &&& final(registry).same_as(*old(registry))
                } else {
                    &&& r matches Ok(snapshot) && snapshot@ == snapshot_from(
                        offers,
                        old(registry).next(),
                    )
                    &&& enters(*final(registry), *old(registry), offers)
                }
            }),
    {
        let mut staged: Vec<Staged> = Vec::new();
        assert(offers_in(staged@) =~= Seq::<Offer>::empty());
        self.stage(ProviderTier::Core, &mut staged);
        self.stage(ProviderTier::Plugin, &mut staged);
        self.stage(ProviderTier::Derived, &mut staged);
        let ghost offers = staged_from(self.sources());
        assert(offers_in(staged@) =~= offers);
        if staged.len() > MAX_SNAPSHOT_TARGETS {
            return Err(
                ProviderError::TooManyTargets { max: MAX_SNAPSHOT_TARGETS, current: staged.len() },
            );
        }
        let mut draft = registry.clone();
        let mut entries: Vec<SnapshotEntry> = Vec::new();
        while entries.len() < staged.len()
            invariant
                entries@.len() <= staged@.len(),
                staged@.len() <= MAX_SNAPSHOT_TARGETS,
                offers_in(staged@) == offers,
                offers == staged_from(self.sources()),
                old(registry).wf(),
                registry.wf(),
                *registry == *old(registry),
                draft.wf(),
                forall|kind: TargetKind| #[trigger]
                    draft.live(kind) == entered(
                        *old(registry),
                        offers,
                        entries@.len() as int,
                        kind,
                    ),
                draft.retired() == old(registry).retired(),
                draft.next() == beacon_target::generation_after(old(registry).next(), entries@.len() as int),
                forall|k: int|
                    0 <= k < entries@.len() ==> (#[trigger] entries@[k])@ == snapshot_from(
                        offers,
                        old(registry).next(),
                    )[k],
            decreases staged.len() - entries.len(),
        {
            let i: usize = entries.len();
            let ghost before = draft;
            let ghost offer = offers[i as int];
            assert(offer.target == staged@[i as int].target);
            match insert_offer(&mut draft, &staged[i].target) {
                Ok(target) => {
                    entries.push(
                        SnapshotEntry {
                            target,
                            tier: staged[i].tier,
                            provider: staged[i].provider.clone(),
                        },
                    );
                    proof {
                        lemma_next(old(registry).next(), i as int);
                        assert forall|kind: TargetKind| #[trigger]
                            draft.live(kind) == entered(*old(registry), offers, i + 1, kind) by {
                            assert(before.live(kind) == entered(
                                *old(registry),
                                offers,
                                i as int,
                                kind,
                            ));
                        }
                    }
                },
                Err(e) => {
                    proof {
                        let kind = offer.target.surface().kind;
                        let raw = offer.target.surface().raw;
                        beacon_target::registries_are_bounded(before, kind);
                        beacon_target::tables_are_finite(*old(registry), kind);
                        beacon_target::tables_are_finite(before, kind);
                        assert(before.live(kind) == entered(
                            *old(registry),
                            offers,
                            i as int,
                            kind,
                        ));
                        assert(entered(*old(registry), offers, i + 1, kind).dom()
                            =~= before.live(kind).dom().insert(raw));
                        lemma_entered_grows(
                            *old(registry),
                            offers,
                            i + 1,
                            offers.len() as int,
                            kind,
                        );
                        assert(entered(
                            *old(registry),
                            offers,
                            offers.len() as int,
                            kind,
                        ).len() > beacon_target::MAX_TARGETS_PER_KIND);
                        assert(!has_room(*old(registry), offers));
                    }
                    return Err(e);
                },
            }
        }
        *registry = draft;
        let snapshot = TargetSnapshot { entries };
        assert(snapshot@ =~= snapshot_from(offers, old(registry).next()));
        proof {
            assert forall|kind: TargetKind|
                (#[trigger] entered(*old(registry), offers, offers.len() as int, kind)).len()
                    <= beacon_target::MAX_TARGETS_PER_KIND by {
                beacon_target::registries_are_bounded(draft, kind);
            }
        }
        Ok(snapshot)
    }
}

impl Default for ProviderMediator {
    fn default() -> (mediator: Self)
        ensures
            mediator.wf(),
            mediator.sources() == Seq::<Source>::empty(),
    {
        Self::new()
    }
}

/// An offer that is read back from its handle is the offer, whatever the
/// generation.
pub proof fn handles_name_their_offer(offer: ProviderTarget, generation: u64)
    ensures
        ProviderTarget::of(offer.at(generation)) == offer,
        offer.at(generation).surface() == offer.surface(),
        offer.at(generation).generation() == generation,
{
}

proof fn lemma_tier_of(sources: Seq<Source>, tier: ProviderTier, i: int)
    requires
        0 <= i < offers_at(sources, tier).len(),
    ensures
        offers_at(sources, tier)[i].tier == tier,
    decreases sources.len(),
{
    if sources.len() > 0 {
        let rest = offers_at(sources.drop_last(), tier);
        if i < rest.len() {
            lemma_tier_of(sources.drop_last(), tier, i);
        }
    }
}

/// The offers of a lower tier never come before those of a higher one.
pub proof fn tiers_are_collected_in_order(sources: Seq<Source>, i: int, j: int)
    requires
        0 <= i <= j < staged_from(sources).len(),
    ensures
        staged_from(sources)[i].tier.order() <= staged_from(sources)[j].tier.order(),
{
    lemma_tier_at(sources, i);
    lemma_tier_at(sources, j);
}

proof fn lemma_tier_at(sources: Seq<Source>, i: int)
    requires
        0 <= i < staged_from(sources).len(),
    ensures
        ({
            let a = offers_at(sources, ProviderTier::Core).len();
            let b = offers_at(sources, ProviderTier::Plugin).len();
            staged_from(sources)[i].tier == if i < a {
                ProviderTier::Core
            } else if i < a + b {
                ProviderTier::Plugin
            } else {
                ProviderTier::Derived
            }
        }),
{
    let a = offers_at(sources, ProviderTier::Core);
    let b = offers_at(sources, ProviderTier::Plugin);
    if i < a.len() {
        lemma_tier_of(sources, ProviderTier::Core, i);
    } else if i < a.len() + b.len() {
        lemma_tier_of(sources, ProviderTier::Plugin, i - a.len());
    } else {
        lemma_tier_of(sources, ProviderTier::Derived, i - a.len() - b.len());
    }
}

proof fn lemma_last_entry(
    registry: TargetRegistry,
    offers: Seq<Offer>,
    n: int,
    k: int,
) -> (last: int)
    requires
        0 <= k < n <= offers.len(),
    ensures
        k <= last < n,
        offers[last].target.surface() == offers[k].target.surface(),
        ({
            let surface = offers[k].target.surface();
            let table = entered(registry, offers, n, surface.kind);
            table.contains_key(surface.raw) && table[surface.raw] == beacon_target::generation_after(
                registry.next(),
                last,
            )
        }),
    decreases n,
{
    let surface = offers[k].target.surface();
    if offers[n - 1].target.surface() == surface {
        n - 1
    } else {
        lemma_last_entry(registry, offers, n - 1, k)
    }
}

/// Collecting a target again makes every handle that was issued for it before
/// stale, unless the generations wrap around.
pub proof fn collecting_stales_older_handles(
    before: TargetRegistry,
    after: TargetRegistry,
    offers: Seq<Offer>,
    k: int,
    target: TargetRef,
)
    requires
        enters(after, before, offers),
        0 <= k < offers.len(),
        target.surface() == offers[k].target.surface(),
        target.generation() < before.next(),
        before.next() + offers.len() <= u64::MAX,
    ensures
        after.is_stale(target),
        !after.is_current(target),
{
    let last = lemma_last_entry(before, offers, offers.len() as int, k);
    vstd::arithmetic::div_mod::lemma_small_mod(
        (before.next() + last) as nat,
        0x1_0000_0000_0000_0000,
    );
}

/// When no target is offered twice, every handle of the new snapshot is
/// current.
pub proof fn fresh_snapshots_resolve(
    before: TargetRegistry,
    after: TargetRegistry,
    offers: Seq<Offer>,
)
    requires
        enters(after, before, offers),
        forall|i: int, j: int|
            0 <= i < j < offers.len() ==> (#[trigger] offers[i]).target.surface() != (
            #[trigger] offers[j]).target.surface(),
    ensures
        first_dead(snapshot_from(offers, before.next()), after, 0) == offers.len(),
{
    let snapshot = snapshot_from(offers, before.next());
    assert forall|k: int| 0 <= k < offers.len() implies after.is_current(
        (#[trigger] snapshot[k]).target,
    ) by {
        let last = lemma_last_entry(before, offers, offers.len() as int, k);
        if k < last {
            assert(offers[k].target.surface() != offers[last].target.surface());
        }
        handles_name_their_offer(offers[k].target, beacon_target::generation_after(before.next(), k));
    }
    lemma_none_dead(snapshot, after, 0);
}

/// A collection is a new epoch. While the registry stands as a collection left
/// it, its snapshot resolves whole. After the same providers are collected once
/// more, the older snapshot is stale and the newer one resolves whole, when no
/// target is offered twice.
pub proof fn newer_snapshots_replace_older_ones(
    start: TargetRegistry,
    middle: TargetRegistry,
    end: TargetRegistry,
    offers: Seq<Offer>,
)
    requires
        enters(middle, start, offers),
        enters(end, middle, offers),
        0 < offers.len() <= MAX_SNAPSHOT_TARGETS,
        forall|i: int, j: int|
            0 <= i < j < offers.len() ==> (#[trigger] offers[i]).target.surface() != (
            #[trigger] offers[j]).target.surface(),
    ensures
        first_dead(snapshot_from(offers, start.next()), middle, 0) == offers.len(),
        first_dead(snapshot_from(offers, middle.next()), end, 0) == offers.len(),
        first_dead(snapshot_from(offers, start.next()), end, 0) == 0,
        forall|k: int|
            0 <= k < offers.len() ==> end.is_stale(
                (#[trigger] snapshot_from(offers, start.next())[k]).target,
            ),
{
    fresh_snapshots_resolve(start, middle, offers);
    fresh_snapshots_resolve(middle, end, offers);
    let older = snapshot_from(offers, start.next());
    assert forall|k: int| 0 <= k < offers.len() implies end.is_stale((#[trigger] older[k]).target)
        && !end.is_current(older[k].target) by {
        let last = lemma_last_entry(middle, offers, offers.len() as int, k);
        if k < last {
            assert(offers[k].target.surface() != offers[last].target.surface());
        }
        handles_name_their_offer(
            offers[k].target,
            beacon_target::generation_after(start.next(), k),
        );
        beacon_target::generations_differ(start.next(), k, offers.len() + k);
        beacon_target::generations_add_up(start.next(), offers.len() as int, k);
    }
    assert(!end.is_current(older[0].target));
}

proof fn lemma_none_dead(entries: Seq<Collected>, registry: TargetRegistry, from: int)
    requires
        0 <= from <= entries.len(),
        forall|k: int|
            0 <= k < entries.len() ==> registry.is_current((#[trigger] entries[k]).target),
    ensures
        first_dead(entries, registry, from) == entries.len(),
    decreases entries.len() - from,
{
    if from < entries.len() {
        assert(registry.is_current(entries[from].target));
        lemma_none_dead(entries, registry, from + 1);
    }
}

proof fn lemma_next(first: u64, k: int)
    requires
        k >= 0,
    ensures
        beacon_target::generation_after(first, k + 1) == if beacon_target::generation_after(first, k) == u64::MAX {
            0
        } else {
            (beacon_target::generation_after(first, k) + 1) as u64
        },
{
    let m = 0x1_0000_0000_0000_0000int;
    let n = first + k;
    assert((n + 1) % m == if n % m == m - 1 {
        0
    } else {
        n % m + 1
    }) by (nonlinear_arith)
        requires
            m == 0x1_0000_0000_0000_0000int,
            n >= 0,
    ;
}

proof fn lemma_core_name()
    ensures
        name_fault(CORE_TERMINAL_PROVIDER_NAME@) is None,
{
    reveal_strlit("terminal");
    let name = CORE_TERMINAL_PROVIDER_NAME@;
    assert(vstd::utf8::is_ascii_chars(name));
    vstd::utf8::is_ascii_chars_encode_utf8(name);
}

/// Offers are collected source by source, in order: those of the core, then those
/// of plugins, then derived ones, each with the tier and the name of its source.
pub proof fn offers_are_collected_by_tier(sources: Seq<Source>, source: Source, tier: ProviderTier)
    ensures
        staged_from(sources) == offers_at(sources, ProviderTier::Core) + offers_at(
            sources,
            ProviderTier::Plugin,
        ) + offers_at(sources, ProviderTier::Derived),
        offers_at(Seq::empty(), tier) == Seq::<Offer>::empty(),
        source.tier == tier ==> offers_at(sources.push(source), tier) == offers_at(sources, tier)
            + Seq::new(
            source.offers.len(),
            |i: int| Offer { tier: source.tier, provider: source.name, target: source.offers[i] },
        ),
        source.tier != tier ==> offers_at(sources.push(source), tier) == offers_at(sources, tier),
{
    assert(sources.push(source).drop_last() =~= sources);
}

/// The handles of a snapshot count up from the next generation, one per offer,
/// and after the highest go on from zero; each names its offer.
pub proof fn snapshot_handles_count_up(offers: Seq<Offer>, first: u64, k: int)
    requires
        0 <= k < offers.len(),
    ensures
        ({
            let c = snapshot_from(offers, first)[k];
            &&& snapshot_from(offers, first).len() == offers.len()
            &&& first + k <= u64::MAX ==> c.target.generation() == first + k
            &&& u64::MAX < first + k <= 2 * u64::MAX ==> c.target.generation() == first + k
                - u64::MAX - 1
            &&& c.target.surface() == offers[k].target.surface()
            &&& c.tier == offers[k].tier
            &&& c.provider == offers[k].provider
        }),
{
    handles_name_their_offer(
        offers[k].target,
        beacon_target::generation_after(first, k),
    );
}

/// A provider name is made of lower-case letters, digits, `.`, `-`, `_` and `:`,
/// at least one and at most 32 of them; `terminal` belongs to the core.
pub proof fn provider_names_are_plain(s: Seq<char>, tier: ProviderTier)
    requires
        text::byte_len(s) <= 32,
    ensures
        name_fault(s) is None <==> s.len() > 0 && forall|i: int|
            0 <= i < s.len() ==> ('a' <= #[trigger] s[i] <= 'z' || '0' <= s[i] <= '9' || s[i] == '.'
                || s[i] == '-' || s[i] == '_' || s[i] == ':'),
        is_kept(s, tier) <==> s == "terminal"@ && !(tier is Core),
{
    if exists|i: int| 0 <= i < s.len() && !is_name_char(#[trigger] s[i]) {
        let i = choose|i: int| 0 <= i < s.len() && !is_name_char(#[trigger] s[i]);
        assert(!('a' <= s[i] <= 'z'));
    }
}

/// Collecting enters every offer into the table of its kind; where a surface is
/// offered more than once, the last offer counts. Other surfaces keep what they
/// have.
pub proof fn the_last_offer_of_a_surface_counts(
    registry: TargetRegistry,
    offers: Seq<Offer>,
    n: int,
    surface: Surface,
    k: int,
)
    requires
        0 <= n <= offers.len(),
    ensures
        ({
            let table = entered(registry, offers, n, surface.kind);
            &&& 0 <= k < n && offers[k].target.surface() == surface && (forall|j: int|
                k < j < n ==> (#[trigger] offers[j]).target.surface() != surface)
                ==> table.contains_key(surface.raw) && table[surface.raw]
                == beacon_target::generation_after(registry.next(), k)
            &&& (forall|j: int| 0 <= j < n ==> (#[trigger] offers[j]).target.surface() != surface)
                ==> table.contains_key(surface.raw) == registry.live(surface.kind).contains_key(
                surface.raw,
            ) && table[surface.raw] == registry.live(surface.kind)[surface.raw]
        }),
    decreases n,
{
    if n > 0 {
        the_last_offer_of_a_surface_counts(registry, offers, n - 1, surface, k);
        let last = offers[n - 1].target.surface();
        if last != surface && last.kind == surface.kind {
            assert(last.raw != surface.raw);
        }
    }
}

/// The handles of a tier are those of its entries, in order.
pub proof fn tier_handles_keep_their_order(
    entries: Seq<Collected>,
    entry: Collected,
    tier: ProviderTier,
)
    ensures
        handles_of_tier(Seq::empty(), tier) == Seq::<TargetRef>::empty(),
        entry.tier == tier ==> handles_of_tier(entries.push(entry), tier) == handles_of_tier(
            entries,
            tier,
        ).push(entry.target),
        entry.tier != tier ==> handles_of_tier(entries.push(entry), tier) == handles_of_tier(
            entries,
            tier,
        ),
{
    assert(entries.push(entry).drop_last() =~= entries);
}

/// The first dead entry is the first whose handle is not current any more.
pub proof fn the_first_dead_entry_is_found(
    entries: Seq<Collected>,
    registry: TargetRegistry,
    from: int,
)
    requires
        0 <= from <= entries.len(),
    ensures
        ({
            let k = first_dead(entries, registry, from);
            &&& from <= k <= entries.len()
            &&& forall|j: int|
                from <= j < k ==> registry.is_current((#[trigger] entries[j]).target)
            &&& k < entries.len() ==> !registry.is_current(entries[k].target)
        }),
    decreases entries.len() - from,
{
    if from < entries.len() && registry.is_current(entries[from].target) {
        the_first_dead_entry_is_found(entries, registry, from + 1);
    }
}

} // verus!
