//! Layout providers: named layout algorithms that propose trees, the checks a
//! proposal has to pass, and the registry that holds them.

use crate::float32;
use crate::float32::Float32;
use crate::float64;
use crate::float64::Float64;
use crate::geometry::Rect;
use crate::layout::LayoutNode;
use crate::text;
use crate::tree;
use crate::tree::Tree;
use crate::tree_laws;
use crate::view::ViewId;
use vstd::prelude::*;
use vstd::string::*;

pub use crate::provider_registry::ProviderRegistry;
pub use crate::tilers::{DwindleProvider, GridProvider, MasterProvider, NoopTiler};

verus! {

/// Capability that gates provider registration.
pub const LAYOUT_PROVIDER_CAPABILITY: &'static str = "layout.provider";

/// Name of the built-in no-op tiler.
pub const NOOP_PROVIDER_NAME: &'static str = "noop";

/// Names kept for the canonical providers.
pub const RESERVED_PROVIDER_NAMES: [&'static str; 3] = ["dwindle", "master", "grid"];

/// Maximum provider name length in bytes.
pub const MAX_PROVIDER_NAME_LEN: usize = 32;

/// Raw id of the no-op tiler.
pub const NOOP_PROVIDER_ID: u64 = 0;

/// Raw id of dwindle.
pub const DWINDLE_PROVIDER_ID: u64 = 1;

/// Raw id of master.
pub const MASTER_PROVIDER_ID: u64 = 2;

/// Raw id of grid.
pub const GRID_PROVIDER_ID: u64 = 3;

/// The kept names are the ones listed.
pub proof fn reserved_names_are_listed(s: Seq<char>)
    ensures
        is_reserved(s) <==> exists|i: int|
            0 <= i < 3 && (#[trigger] RESERVED_PROVIDER_NAMES@[i])@ == s,
{
    assert(RESERVED_PROVIDER_NAMES@[0]@ == "dwindle"@);
    assert(RESERVED_PROVIDER_NAMES@[1]@ == "master"@);
    assert(RESERVED_PROVIDER_NAMES@[2]@ == "grid"@);
}

/// Opaque identifier of a registered layout provider.
#[derive(Debug, Clone, Copy, PartialEq, Eq, Structural, Hash, PartialOrd, Ord)]
pub struct ProviderId(pub u64);

impl ProviderId {
    /// Creates a provider id from a raw value.
    #[must_use]
    pub fn new(raw: u64) -> (id: Self)
        ensures
            id == ProviderId(raw),
    {
        Self(raw)
    }

    /// Spells the id as `ProviderId(<raw>)`.
    #[must_use]
    pub fn text(self) -> (out: String)
        ensures
            out@ == "ProviderId("@ + text::decimal(self.0 as nat) + ")"@,
    {
        text::tagged_number("ProviderId(", self.0, ")")
    }
}

/// A character allowed after the first one of a name segment.
pub open spec fn segment_char(c: char) -> bool {
    text::is_lower(c) || text::is_digit(c) || c == '-' || c == '_'
}

/// A name segment: `[a-z][a-z0-9_-]*`, at most 32 characters.
pub open spec fn is_segment(s: Seq<char>) -> bool {
    &&& 1 <= s.len() <= 32
    &&& text::is_lower(s[0])
    &&& forall|i: int| 0 <= i < s.len() ==> segment_char(#[trigger] s[i])
}

/// Every piece is a name segment.
pub open spec fn all_segments(parts: Seq<Seq<char>>) -> bool {
    forall|i: int| 0 <= i < parts.len() ==> is_segment(#[trigger] parts[i])
}

/// One of the names kept for the canonical providers.
pub open spec fn is_reserved(s: Seq<char>) -> bool {
    s == "dwindle"@ || s == "master"@ || s == "grid"@
}

/// Why a provider name is malformed, `None` for a well-formed one. A name is
/// a bare segment, or `owner.name:algorithm` with at least two dot-separated
/// segments before the colon and one segment behind it.
pub open spec fn name_fault(s: Seq<char>) -> Option<Seq<char>> {
    let k = text::index_of(s, ':');
    if s.len() == 0 {
        Some("provider name must not be empty"@)
    } else if text::byte_len(s) > MAX_PROVIDER_NAME_LEN {
        Some("provider name exceeds 32 bytes"@)
    } else if k < s.len() {
        if s.skip(k + 1).contains(':') {
            Some("qualified name holds a single ':'"@)
        } else if !is_segment(s.skip(k + 1)) {
            Some("algorithm after ':' must be [a-z][a-z0-9_-]*"@)
        } else if text::pieces(s.take(k), '.').len() < 2 || !all_segments(
            text::pieces(s.take(k), '.'),
        ) {
            Some("owner head must be dot-separated (owner.name)"@)
        } else {
            None
        }
    } else if !is_segment(s) {
        Some("bare name must be [a-z][a-z0-9_-]*"@)
    } else {
        None
    }
}

/// Every bare segment is a well-formed name.
pub proof fn segments_are_names(s: Seq<char>)
    requires
        is_segment(s),
    ensures
        name_fault(s) is None,
{
    assert(vstd::utf8::is_ascii_chars(s));
    vstd::utf8::is_ascii_chars_encode_utf8(s);
    text::index_of_unique(s, ':', s.len() as int);
}

/// Validated provider name.
#[derive(Debug, PartialEq, Eq, Hash)]
pub struct ProviderName {
    raw: String,
    canonical: bool,
}

impl View for ProviderName {
    type V = Seq<char>;

    closed spec fn view(&self) -> Seq<char> {
        self.raw@
    }
}

impl ProviderName {
    #[verifier::type_invariant]
    spec fn well_formed(self) -> bool {
        name_fault(self.raw@) is None && self.canonical == is_reserved(self.raw@)
    }

    /// Parses and checks a provider name.
    pub fn parse(raw: &str) -> (r: Result<Self, LayoutError>)
        ensures
            match r {
                Ok(name) => name_fault(raw@) is None && name@ == raw@,
                Err(LayoutError::InvalidName { name, reason }) => name@ == raw@ && name_fault(raw@)
                    == Some(reason@),
                Err(_) => false,
            },
    {
        if raw.is_empty() {
            return invalid_name(raw, "provider name must not be empty");
        }
        if text::byte_count(raw) > MAX_PROVIDER_NAME_LEN {
            return invalid_name(raw, "provider name exceeds 32 bytes");
        }
        let chars = text::chars_of(raw);
        let k: usize = text::find_char(chars.as_slice(), ':');
        if k < chars.len() {
            let algo = text::part_of(chars.as_slice(), k + 1, chars.len());
            let head = text::part_of(chars.as_slice(), 0, k);
            assert(algo@ =~= raw@.skip(k + 1));
            assert(head@ =~= raw@.take(k as int));
            if text::find_char(algo.as_slice(), ':') < algo.len() {
                return invalid_name(raw, "qualified name holds a single ':'");
            }
            if !is_bare_segment(&algo) {
                return invalid_name(raw, "algorithm after ':' must be [a-z][a-z0-9_-]*");
            }
            let parts = text::split_at_each(head.as_slice(), '.');
            assert(parts@.len() == text::texts(parts@).len());
            if parts.len() < 2 || !all_bare_segments(&parts) {
                return invalid_name(raw, "owner head must be dot-separated (owner.name)");
            }
        } else if !is_bare_segment(&chars) {
            return invalid_name(raw, "bare name must be [a-z][a-z0-9_-]*");
        }
        let canonical: bool = text::same_text(raw, "dwindle") || text::same_text(raw, "master")
            || text::same_text(raw, "grid");
        Ok(Self { raw: raw.to_owned(), canonical })
    }

    /// Raw name string.
    #[must_use]
    pub fn as_str(&self) -> (s: &str)
        ensures
            s@ == self@,
            name_fault(self@) is None,
    {
        proof {
            use_type_invariant(self);
        }
        self.raw.as_str()
    }

    /// Whether this is a reserved canonical name.
    #[must_use]
    pub fn is_canonical(&self) -> (yes: bool)
        ensures
            yes == is_reserved(self@),
    {
        proof {
            use_type_invariant(self);
        }
        self.canonical
    }
}

impl Clone for ProviderName {
    fn clone(&self) -> (n: Self)
        ensures
            n@ == self@,
    {
        proof {
            use_type_invariant(self);
        }
        Self { raw: self.raw.clone(), canonical: self.canonical }
    }
}

fn invalid_name(raw: &str, reason: &'static str) -> (r: Result<ProviderName, LayoutError>)
    ensures
        r matches Err(LayoutError::InvalidName { name, reason: why }) && name@ == raw@ && why
            == reason,
{
    Err(LayoutError::InvalidName { name: raw.to_owned(), reason })
}

fn is_bare_segment(seg: &Vec<char>) -> (yes: bool)
    ensures
        yes == is_segment(seg@),
{
    if seg.len() == 0 || seg.len() > MAX_PROVIDER_NAME_LEN {
        return false;
    }
    let first: char = seg[0];
    if !('a' <= first && first <= 'z') {
        return false;
    }
    let mut i: usize = 0;
    while i < seg.len()
        invariant
            0 <= i <= seg.len(),
            forall|j: int| 0 <= j < i ==> segment_char(#[trigger] seg@[j]),
        decreases seg.len() - i,
    {
        let c: char = seg[i];
        if !(('a' <= c && c <= 'z') || ('0' <= c && c <= '9') || c == '-' || c == '_') {
            assert(!segment_char(seg@[i as int]));
            return false;
        }
        i = i + 1;
    }
    true
}

fn all_bare_segments(parts: &Vec<Vec<char>>) -> (yes: bool)
    ensures
        yes == all_segments(text::texts(parts@)),
{
    let mut i: usize = 0;
    while i < parts.len()
        invariant
            0 <= i <= parts.len(),
            forall|j: int| 0 <= j < i ==> is_segment(#[trigger] text::texts(parts@)[j]),
        decreases parts.len() - i,
    {
        assert(text::texts(parts@)[i as int] == parts@[i as int]@);
        if !is_bare_segment(&parts[i]) {
            return false;
        }
        i = i + 1;
    }
    true
}

/// Typed failure of the provider path.
#[derive(Debug, Clone, PartialEq)]
pub enum LayoutError {
    /// Provider name violates the grammar.
    InvalidName { name: String, reason: &'static str },
    /// No provider is registered under this name.
    UnknownProvider { name: String },
    /// Registration without the capability grant.
    CapabilityDenied { name: String },
    /// Reserved name claimed by another provider.
    ReservedName { name: String },
    /// A provider under this name is already registered.
    DuplicateName { name: String },
    /// A provider with this id is already registered.
    DuplicateId { id: u64 },
    /// The view set is empty.
    EmptyViewSet,
    /// The proposal contains no leaves.
    EmptyProposal,
    /// The proposal repeats a view.
    DuplicateView { id: u64 },
    /// The proposal drops a requested view.
    MissingView { id: u64 },
    /// The proposal invents a view.
    UnexpectedView { id: u64 },
    /// A split ratio falls outside `[0.1, 0.9]`.
    RatioOutOfBounds { ratio: Float32 },
    /// The proposal uses a stack or an overlay.
    UnsupportedNode { kind: &'static str },
}

impl LayoutError {
    /// The message of the error. `ratio` is the decimal spelling of the
    /// rejected ratio.
    pub open spec fn spelled(self, ratio: Seq<char>) -> Seq<char> {
        match self {
            LayoutError::InvalidName { name, reason } => "invalid layout provider name '"@ + name@
                + "': "@ + reason@,
            LayoutError::UnknownProvider { name } => "unknown layout provider '"@ + name@ + "'"@,
            LayoutError::CapabilityDenied { name } => "registering layout provider '"@ + name@
                + "' requires the 'layout.provider' capability"@,
            LayoutError::ReservedName { name } => "layout provider name '"@ + name@
                + "' is reserved for the canonical provider"@,
            LayoutError::DuplicateName { name } => "layout provider '"@ + name@
                + "' is already registered"@,
            LayoutError::DuplicateId { id } => "layout provider id "@ + text::decimal(id as nat)
                + " is already registered"@,
            LayoutError::EmptyViewSet => "layout proposal needs at least one view"@,
            LayoutError::EmptyProposal => "layout proposal contains no views"@,
            LayoutError::DuplicateView { id } => "layout proposal repeats ViewId("@
                + text::decimal(id as nat) + ")"@,
            LayoutError::MissingView { id } => "layout proposal drops requested ViewId("@
                + text::decimal(id as nat) + ")"@,
            LayoutError::UnexpectedView { id } => "layout proposal invents unrequested ViewId("@
                + text::decimal(id as nat) + ")"@,
            LayoutError::RatioOutOfBounds { .. } => "layout proposal ratio "@ + ratio
                + " is outside [0.1, 0.9]"@,
            LayoutError::UnsupportedNode { kind } => "layout proposal uses '"@ + kind@
                + "' (only H and V splits are allowed)"@,
        }
    }

    /// Spells the error. `ratio` is the decimal spelling of the rejected
    /// ratio, which only [`LayoutError::RatioOutOfBounds`] uses.
    #[must_use]
    pub fn text(&self, ratio: &str) -> (out: String)
        ensures
            out@ == self.spelled(ratio@),
    {
        match self {
            LayoutError::InvalidName { name, reason } => {
                let mut out = text::joined3("invalid layout provider name '", name.as_str(), "': ");
                text::push_text(&mut out, reason);
                out
            },
            LayoutError::UnknownProvider { name } => text::joined3(
                "unknown layout provider '",
                name.as_str(),
                "'",
            ),
            LayoutError::CapabilityDenied { name } => text::joined3(
                "registering layout provider '",
                name.as_str(),
                "' requires the 'layout.provider' capability",
            ),
            LayoutError::ReservedName { name } => text::joined3(
                "layout provider name '",
                name.as_str(),
                "' is reserved for the canonical provider",
            ),
            LayoutError::DuplicateName { name } => text::joined3(
                "layout provider '",
                name.as_str(),
                "' is already registered",
            ),
            LayoutError::DuplicateId { id } => text::tagged_number(
                "layout provider id ",
                *id,
                " is already registered",
            ),
            LayoutError::EmptyViewSet => "layout proposal needs at least one view".to_owned(),
            LayoutError::EmptyProposal => "layout proposal contains no views".to_owned(),
            LayoutError::DuplicateView { id } => text::tagged_number(
                "layout proposal repeats ViewId(",
                *id,
                ")",
            ),
            LayoutError::MissingView { id } => text::tagged_number(
                "layout proposal drops requested ViewId(",
                *id,
                ")",
            ),
            LayoutError::UnexpectedView { id } => text::tagged_number(
                "layout proposal invents unrequested ViewId(",
                *id,
                ")",
            ),
            LayoutError::RatioOutOfBounds { .. } => text::joined3(
                "layout proposal ratio ",
                ratio,
                " is outside [0.1, 0.9]",
            ),
            LayoutError::UnsupportedNode { kind } => text::joined3(
                "layout proposal uses '",
                kind,
                "' (only H and V splits are allowed)",
            ),
        }
    }
}

/// Available area for a proposal, in logical pixels.
#[derive(Debug, Clone, Copy, PartialEq)]
pub struct LogicalRect {
    /// Left edge.
    pub x: Float64,
    /// Top edge.
    pub y: Float64,
    /// Width.
    pub width: Float64,
    /// Height.
    pub height: Float64,
}

impl LogicalRect {
    /// Both dimensions are finite and above zero.
    pub open spec fn usable(self) -> bool {
        float64::is_positive(self.width@) && float64::is_positive(self.height@)
    }

    /// A usable area that is taller than wide.
    pub open spec fn is_tall(self) -> bool {
        self.usable() && self.height@ > self.width@
    }

    /// Builds an area. Non-finite or non-positive dimensions are legal and
    /// read as no usable area.
    #[must_use]
    pub fn new(x: Float64, y: Float64, width: Float64, height: Float64) -> (r: Self)
        ensures
            r == (LogicalRect { x, y, width, height }),
    {
        Self { x, y, width, height }
    }

    /// The logical area of a cell rectangle, one unit per cell.
    #[must_use]
    pub fn from_rect(rect: Rect) -> (r: Self)
        ensures
            float64::is_whole(r.x@, rect.x as nat),
            float64::is_whole(r.y@, rect.y as nat),
            float64::is_whole(r.width@, rect.width as nat),
            float64::is_whole(r.height@, rect.height as nat),
    {
        Self {
            x: float64::from_u16(rect.x),
            y: float64::from_u16(rect.y),
            width: float64::from_u16(rect.width),
            height: float64::from_u16(rect.height),
        }
    }

    /// Whether this area is empty or unusable for axis decisions.
    #[must_use]
    pub fn is_empty(self) -> (empty: bool)
        ensures
            empty == !self.usable(),
    {
        !self.width.is_positive() || !self.height.is_positive()
    }

    pub(crate) fn taller_than_wide(self) -> (tall: bool)
        ensures
            tall == self.is_tall(),
    {
        !self.is_empty() && self.height.to_bits() > self.width.to_bits()
    }
}

/// Read-only workspace state handed to a provider.
#[derive(Debug, Clone, PartialEq)]
pub struct WorkspaceSnapshot {
    /// Views the proposal must lay out, in order.
    pub views: Vec<ViewId>,
    /// Current tree, whose leaf views a proposal reuses.
    pub current: LayoutNode,
}

impl WorkspaceSnapshot {
    /// Builds a snapshot.
    #[must_use]
    pub fn new(views: Vec<ViewId>, current: LayoutNode) -> (s: Self)
        ensures
            s.views@ == views@,
            s.current.tree() == current.tree(),
    {
        Self { views, current }
    }
}

/// A layout algorithm. `propose` is a pure function of the snapshot, the view
/// set and the available area.
pub trait LayoutProvider: Send + Sync {
    /// The id of the provider.
    closed spec fn key(&self) -> ProviderId {
        arbitrary()
    }

    /// The name of the provider.
    closed spec fn label(&self) -> Seq<char> {
        arbitrary()
    }

    /// Stable provider id.
    fn id(&self) -> (id: ProviderId)
        ensures
            id == self.key(),
    ;

    /// Validated provider name.
    fn name(&self) -> (name: &ProviderName)
        ensures
            name@ == self.label(),
    ;

    /// Proposes a tree for `views` in `area`.
    fn propose(&self, workspace: &WorkspaceSnapshot, views: &[ViewId], area: LogicalRect) -> (r:
        Result<LayoutNode, LayoutError>);
}

/// What is wrong with a proposal.
pub enum ProposalFault {
    /// No views were requested.
    EmptyViewSet,
    /// A stack stands in the tree.
    Stack,
    /// An overlay stands in the tree.
    Overlay,
    /// A ratio with these bits is out of bounds.
    Ratio(u32),
    /// The tree has no leaves.
    EmptyProposal,
    /// The view occurs twice.
    Duplicate(ViewId),
    /// The requested view is not in the tree.
    Missing(ViewId),
    /// The view in the tree was not requested.
    Unexpected(ViewId),
}

impl LayoutError {
    /// The error reports exactly this fault.
    pub open spec fn reports(self, fault: ProposalFault) -> bool {
        match fault {
            ProposalFault::EmptyViewSet => self == LayoutError::EmptyViewSet,
            ProposalFault::Stack => self matches LayoutError::UnsupportedNode { kind } && kind@
                == "Stack"@,
            ProposalFault::Overlay => self matches LayoutError::UnsupportedNode { kind } && kind@
                == "Overlay"@,
            ProposalFault::Ratio(bits) => self matches LayoutError::RatioOutOfBounds { ratio }
                && ratio@ == bits,
            ProposalFault::EmptyProposal => self == LayoutError::EmptyProposal,
            ProposalFault::Duplicate(v) => self == (LayoutError::DuplicateView { id: v.0 }),
            ProposalFault::Missing(v) => self == (LayoutError::MissingView { id: v.0 }),
            ProposalFault::Unexpected(v) => self == (LayoutError::UnexpectedView { id: v.0 }),
        }
    }
}

/// The first node, depth first, that is neither a leaf nor a split.
pub open spec fn node_fault(t: Tree) -> Option<ProposalFault>
    decreases t,
{
    match t {
        Tree::Leaf(_) => None,
        Tree::Split { first, second, .. } => if node_fault(*first) is Some {
            node_fault(*first)
        } else {
            node_fault(*second)
        },
        Tree::Stack(_) => Some(ProposalFault::Stack),
        Tree::Overlay { .. } => Some(ProposalFault::Overlay),
    }
}

/// The first ratio, depth first through the splits, that is out of bounds.
pub open spec fn ratio_fault(t: Tree) -> Option<ProposalFault>
    decreases t,
{
    match t {
        Tree::Split { ratio, first, second, .. } => if !float32::is_ratio(ratio) {
            Some(ProposalFault::Ratio(ratio))
        } else if ratio_fault(*first) is Some {
            ratio_fault(*first)
        } else {
            ratio_fault(*second)
        },
        _ => None,
    }
}

/// What is wrong with the shape of a proposal: a node that it may not hold, or
/// else a ratio that is out of bounds.
pub open spec fn shape_fault(t: Tree) -> Option<ProposalFault> {
    if node_fault(t) is Some {
        node_fault(t)
    } else {
        ratio_fault(t)
    }
}

/// The first id that occurred before.
pub open spec fn first_repeat(ids: Seq<ViewId>) -> Option<ViewId>
    decreases ids.len(),
{
    if ids.len() == 0 {
        None
    } else if first_repeat(ids.drop_last()) is Some {
        first_repeat(ids.drop_last())
    } else if ids.drop_last().contains(ids.last()) {
        Some(ids.last())
    } else {
        None
    }
}

/// The first of the ids that is not among `set`.
pub open spec fn first_outside(ids: Seq<ViewId>, set: Seq<ViewId>) -> Option<ViewId>
    decreases ids.len(),
{
    if ids.len() == 0 {
        None
    } else if first_outside(ids.drop_last(), set) is Some {
        first_outside(ids.drop_last(), set)
    } else if !set.contains(ids.last()) {
        Some(ids.last())
    } else {
        None
    }
}

/// What is wrong with a proposal for the requested views, `None` for a
/// proposal that may be committed. The checks run in this order: view set,
/// nodes, ratios, leaves, repeated views, missing views, invented views.
pub open spec fn proposal_fault(t: Tree, views: Seq<ViewId>) -> Option<ProposalFault> {
    if views.len() == 0 {
        Some(ProposalFault::EmptyViewSet)
    } else if shape_fault(t) is Some {
        shape_fault(t)
    } else if t.ids().len() == 0 {
        Some(ProposalFault::EmptyProposal)
    } else if first_repeat(t.ids()) is Some {
        Some(ProposalFault::Duplicate(first_repeat(t.ids())->Some_0))
    } else if first_outside(views, t.ids()) is Some {
        Some(ProposalFault::Missing(first_outside(views, t.ids())->Some_0))
    } else if first_outside(t.ids(), views) is Some {
        Some(ProposalFault::Unexpected(first_outside(t.ids(), views)->Some_0))
    } else {
        None
    }
}

fn holds(ids: &[ViewId], id: ViewId) -> (yes: bool)
    ensures
        yes == ids@.contains(id),
{
    let mut i: usize = 0;
    while i < ids.len()
        invariant
            0 <= i <= ids.len(),
            forall|j: int| 0 <= j < i ==> ids@[j] != id,
        decreases ids.len() - i,
    {
        if ids[i] == id {
            assert(ids@[i as int] == id);
            return true;
        }
        i = i + 1;
    }
    false
}

fn find_outside(ids: &[ViewId], set: &[ViewId]) -> (found: Option<ViewId>)
    ensures
        found == first_outside(ids@, set@),
{
    let mut found: Option<ViewId> = None;
    let mut i: usize = 0;
    while i < ids.len()
        invariant
            0 <= i <= ids.len(),
            found == first_outside(ids@.take(i as int), set@),
        decreases ids.len() - i,
    {
        assert(ids@.take(i + 1).drop_last() =~= ids@.take(i as int));
        if found.is_none() && !holds(set, ids[i]) {
            found = Some(ids[i]);
        }
        i = i + 1;
    }
    assert(ids@.take(i as int) =~= ids@);
    found
}

fn find_repeat(ids: &Vec<ViewId>) -> (found: Option<ViewId>)
    ensures
        found == first_repeat(ids@),
{
    let mut found: Option<ViewId> = None;
    let mut seen: Vec<ViewId> = Vec::new();
    let mut i: usize = 0;
    while i < ids.len()
        invariant
            0 <= i <= ids.len(),
            seen@ == ids@.take(i as int),
            found == first_repeat(ids@.take(i as int)),
        decreases ids.len() - i,
    {
        assert(ids@.take(i + 1).drop_last() =~= ids@.take(i as int));
        if found.is_none() && holds(seen.as_slice(), ids[i]) {
            found = Some(ids[i]);
        }
        seen.push(ids[i]);
        i = i + 1;
        assert(seen@ =~= ids@.take(i as int));
    }
    assert(ids@.take(i as int) =~= ids@);
    found
}

/// Checks a proposal before it is committed.
pub fn validate_proposal(tree: &LayoutNode, views: &[ViewId]) -> (r: Result<(), LayoutError>)
    ensures
        match r {
            Ok(()) => proposal_fault(tree.tree(), views@) is None,
            Err(e) => proposal_fault(tree.tree(), views@) matches Some(fault) && e.reports(fault),
        },
{
    if views.len() == 0 {
        return Err(LayoutError::EmptyViewSet);
    }
    match check_nodes(tree) {
        Ok(()) => {},
        Err(e) => {
            return Err(e);
        },
    }
    match check_ratios(tree) {
        Ok(()) => {},
        Err(e) => {
            return Err(e);
        },
    }
    let leaves = tree.leaf_ids();
    if leaves.len() == 0 {
        return Err(LayoutError::EmptyProposal);
    }
    if let Some(id) = find_repeat(&leaves) {
        return Err(LayoutError::DuplicateView { id: id.0 });
    }
    if let Some(id) = find_outside(views, leaves.as_slice()) {
        return Err(LayoutError::MissingView { id: id.0 });
    }
    if let Some(id) = find_outside(leaves.as_slice(), views) {
        return Err(LayoutError::UnexpectedView { id: id.0 });
    }
    Ok(())
}

fn check_nodes(tree: &LayoutNode) -> (r: Result<(), LayoutError>)
    ensures
        match r {
            Ok(()) => node_fault(tree.tree()) is None,
            Err(e) => node_fault(tree.tree()) matches Some(fault) && e.reports(fault),
        },
    decreases tree,
{
    match tree {
        LayoutNode::Leaf(_) => Ok(()),
        LayoutNode::Split { first, second, .. } => match check_nodes(first) {
            Ok(()) => check_nodes(second),
            Err(e) => Err(e),
        },
        LayoutNode::Stack(_) => Err(LayoutError::UnsupportedNode { kind: "Stack" }),
        LayoutNode::Overlay { .. } => Err(LayoutError::UnsupportedNode { kind: "Overlay" }),
    }
}

fn check_ratios(tree: &LayoutNode) -> (r: Result<(), LayoutError>)
    ensures
        match r {
            Ok(()) => ratio_fault(tree.tree()) is None,
            Err(e) => ratio_fault(tree.tree()) matches Some(fault) && e.reports(fault),
        },
    decreases tree,
{
    match tree {
        LayoutNode::Split { ratio, first, second, .. } => {
            let bits: u32 = ratio.to_bits();
            if bits < float32::MIN_RATIO_BITS || bits > float32::MAX_RATIO_BITS {
                return Err(LayoutError::RatioOutOfBounds { ratio: *ratio });
            }
            match check_ratios(first) {
                Ok(()) => check_ratios(second),
                Err(e) => Err(e),
            }
        },
        _ => Ok(()),
    }
}

/// A proposal that passes holds exactly the requested views, each once, in
/// splits whose ratios are in bounds.
pub proof fn accepted_proposals_hold_the_views(t: Tree, views: Seq<ViewId>)
    ensures
        proposal_fault(t, views) is None ==> {
            &&& tree_laws::is_tiling(t)
            &&& t.ids().no_duplicates()
            &&& forall|id: ViewId| #[trigger] t.ids().contains(id) <==> views.contains(id)
        },
{
    if proposal_fault(t, views) is None {
        no_shape_fault_is_tiling(t);
        no_repeat_is_distinct(t.ids());
        none_outside_is_contained(t.ids(), views);
        none_outside_is_contained(views, t.ids());
    }
}

proof fn no_shape_fault_is_tiling(t: Tree)
    requires
        shape_fault(t) is None,
    ensures
        tree_laws::is_tiling(t),
    decreases t,
{
    match t {
        Tree::Split { first, second, .. } => {
            no_shape_fault_is_tiling(*first);
            no_shape_fault_is_tiling(*second);
        },
        _ => {},
    }
}

proof fn no_repeat_is_distinct(ids: Seq<ViewId>)
    ensures
        first_repeat(ids) is None <==> ids.no_duplicates(),
    decreases ids.len(),
{
    if ids.len() > 0 {
        let before = ids.drop_last();
        no_repeat_is_distinct(before);
        if first_repeat(ids) is None {
            assert forall|i: int, j: int| 0 <= i < ids.len() && 0 <= j < ids.len() && i
                != j implies ids[i] != ids[j] by {
                if i < before.len() && j < before.len() {
                    assert(before[i] != before[j]);
                } else if i < before.len() {
                    assert(before[i] == ids[i]);
                    assert(before.contains(ids[i]));
                } else {
                    assert(before[j] == ids[j]);
                    assert(before.contains(ids[j]));
                }
            }
        }
        if ids.no_duplicates() {
            assert forall|i: int, j: int| 0 <= i < before.len() && 0 <= j < before.len() && i
                != j implies before[i] != before[j] by {
                assert(ids[i] != ids[j]);
            }
            if before.contains(ids.last()) {
                let k = choose|k: int| 0 <= k < before.len() && before[k] == ids.last();
                assert(ids[k] != ids[ids.len() - 1]);
            }
        }
    }
}

proof fn none_outside_is_contained(ids: Seq<ViewId>, set: Seq<ViewId>)
    ensures
        first_outside(ids, set) is None <==> forall|id: ViewId| #[trigger]
            ids.contains(id) ==> set.contains(id),
    decreases ids.len(),
{
    if ids.len() > 0 {
        let before = ids.drop_last();
        none_outside_is_contained(before, set);
        assert forall|id: ViewId| #[trigger] ids.contains(id) implies before.contains(id) || id
            == ids.last() by {
            let k = choose|k: int| 0 <= k < ids.len() && ids[k] == id;
            if k < before.len() {
                assert(before[k] == id);
            }
        }
        assert forall|id: ViewId| #[trigger] before.contains(id) implies ids.contains(id) by {
            let k = choose|k: int| 0 <= k < before.len() && before[k] == id;
            assert(ids[k] == id);
        }
        assert(ids[ids.len() - 1] == ids.last());
        assert(ids.contains(ids.last()));
    }
}

/// Distinct ids repeat nothing and lack nothing of themselves.
pub proof fn distinct_ids_pass(ids: Seq<ViewId>)
    requires
        ids.no_duplicates(),
    ensures
        first_repeat(ids) is None,
        first_outside(ids, ids) is None,
{
    no_repeat_is_distinct(ids);
    none_outside_is_contained(ids, ids);
}

/// A proposal passes if and only if views were asked for, it is made of splits
/// and leaves alone, every ratio in it is between a tenth and nine tenths, and it
/// holds exactly the views that were asked for, each once.
pub proof fn proposals_pass_when_they_fit(t: Tree, views: Seq<ViewId>)
    ensures
        proposal_fault(t, views) is None <==> {
            &&& views.len() > 0
            &&& tree_laws::is_tiling(t)
            &&& t.ids().no_duplicates()
            &&& forall|id: ViewId| #[trigger] t.ids().contains(id) <==> views.contains(id)
            &&& forall|path: Seq<usize>|
                (#[trigger] t.ratio_at(path)) matches Some(r) ==> 0x3DCC_CCCD <= r <= 0x3F66_6666
        },
{
    if tree_laws::is_tiling(t) {
        ratios_in_range(t);
        tiling_has_no_odd_node(t);
    } else {
        odd_nodes_are_faults(t);
    }
    no_repeat_is_distinct(t.ids());
    none_outside_is_contained(t.ids(), views);
    none_outside_is_contained(views, t.ids());
    if views.len() > 0 && (forall|id: ViewId| #[trigger]
        t.ids().contains(id) <==> views.contains(id)) {
        assert(views.contains(views[0]));
        assert(t.ids().contains(views[0]));
    }
}

proof fn tiling_has_no_odd_node(t: Tree)
    requires
        tree_laws::is_tiling(t),
    ensures
        node_fault(t) is None,
    decreases t,
{
    match t {
        Tree::Split { first, second, .. } => {
            tiling_has_no_odd_node(*first);
            tiling_has_no_odd_node(*second);
        },
        _ => {},
    }
}

proof fn odd_nodes_are_faults(t: Tree)
    requires
        !tree_laws::is_tiling(t),
    ensures
        node_fault(t) is Some,
    decreases t,
{
    match t {
        Tree::Split { first, second, .. } => {
            if !tree_laws::is_tiling(*first) {
                odd_nodes_are_faults(*first);
            } else {
                odd_nodes_are_faults(*second);
            }
        },
        _ => {},
    }
}

proof fn ratios_in_range(t: Tree)
    requires
        tree_laws::is_tiling(t),
    ensures
        ratio_fault(t) is None <==> forall|path: Seq<usize>|
            (#[trigger] t.ratio_at(path)) matches Some(r) ==> 0x3DCC_CCCD <= r <= 0x3F66_6666,
    decreases t,
{
    match t {
        Tree::Split { ratio, first, second, .. } => {
            ratios_in_range(*first);
            ratios_in_range(*second);
            assert(t.ratio_at(Seq::empty()) == Some(ratio));
            assert forall|rest: Seq<usize>|
                t.ratio_at(seq![0usize] + rest) == #[trigger] first.ratio_at(rest) by {
                assert((seq![0usize] + rest).drop_first() =~= rest);
            }
            assert forall|rest: Seq<usize>|
                t.ratio_at(seq![1usize] + rest) == #[trigger] second.ratio_at(rest) by {
                assert((seq![1usize] + rest).drop_first() =~= rest);
            }
            if ratio_fault(t) is None {
                assert forall|path: Seq<usize>|
                    (#[trigger] t.ratio_at(path)) matches Some(r) ==> 0x3DCC_CCCD <= r
                        <= 0x3F66_6666 by {
                    if path.len() > 0 {
                        let rest = path.drop_first();
                        assert(first.ratio_at(rest) == first.ratio_at(rest));
                        assert(second.ratio_at(rest) == second.ratio_at(rest));
                    }
                }
            }
        },
        _ => {},
    }
}

/// What a refusal names: an empty request, the first view that the proposal
/// repeats, the first one that it lacks, the first one that nobody asked for, or
/// a ratio outside a tenth and nine tenths.
pub proof fn refusals_name_the_fault(t: Tree, views: Seq<ViewId>)
    ensures
        ({
            let ids = t.ids();
            match proposal_fault(t, views) {
                Some(ProposalFault::EmptyViewSet) => views.len() == 0,
                Some(ProposalFault::Ratio(r)) => !(0x3DCC_CCCD <= r <= 0x3F66_6666),
                Some(ProposalFault::EmptyProposal) => ids.len() == 0,
                Some(ProposalFault::Duplicate(v)) => exists|k: int|
                    0 <= k < ids.len() && #[trigger] ids[k] == v && ids.take(k).contains(v)
                        && ids.take(k).no_duplicates(),
                Some(ProposalFault::Missing(v)) => !ids.contains(v) && exists|k: int|
                    0 <= k < views.len() && #[trigger] views[k] == v && forall|j: int|
                        0 <= j < k ==> ids.contains(#[trigger] views[j]),
                Some(ProposalFault::Unexpected(v)) => !views.contains(v) && exists|k: int|
                    0 <= k < ids.len() && #[trigger] ids[k] == v && forall|j: int|
                        0 <= j < k ==> views.contains(#[trigger] ids[j]),
                _ => views.len() > 0,
            }
        }),
{
    ratio_faults_are_out_of_range(t);
    node_faults_are_odd_nodes(t);
    repeats_come_again(t.ids());
    outside_is_outside(views, t.ids());
    outside_is_outside(t.ids(), views);
}

proof fn node_faults_are_odd_nodes(t: Tree)
    ensures
        node_fault(t) is Some ==> node_fault(t) == Some(ProposalFault::Stack) || node_fault(t)
            == Some(ProposalFault::Overlay),
    decreases t,
{
    match t {
        Tree::Split { first, second, .. } => {
            node_faults_are_odd_nodes(*first);
            node_faults_are_odd_nodes(*second);
        },
        _ => {},
    }
}

proof fn ratio_faults_are_out_of_range(t: Tree)
    ensures
        ratio_fault(t) is Some ==> (ratio_fault(t)->0 matches ProposalFault::Ratio(r) && !(
        0x3DCC_CCCD <= r <= 0x3F66_6666)),
    decreases t,
{
    match t {
        Tree::Split { first, second, .. } => {
            ratio_faults_are_out_of_range(*first);
            ratio_faults_are_out_of_range(*second);
        },
        _ => {},
    }
}

proof fn repeats_come_again(ids: Seq<ViewId>)
    ensures
        first_repeat(ids) matches Some(v) ==> exists|k: int|
            0 <= k < ids.len() && #[trigger] ids[k] == v && ids.take(k).contains(v) && ids.take(
                k,
            ).no_duplicates(),
    decreases ids.len(),
{
    if first_repeat(ids) is Some {
        let v = first_repeat(ids)->0;
        let before = ids.drop_last();
        let n = ids.len() - 1;
        if first_repeat(before) is Some {
            repeats_come_again(before);
            let k = choose|k: int|
                0 <= k < before.len() && #[trigger] before[k] == v && before.take(k).contains(v)
                    && before.take(k).no_duplicates();
            assert(before.take(k) =~= ids.take(k));
            assert(ids[k] == v);
        } else {
            no_repeat_is_distinct(before);
            assert(ids.take(n) =~= before);
            assert(ids[n] == v);
        }
    }
}

proof fn outside_is_outside(ids: Seq<ViewId>, set: Seq<ViewId>)
    ensures
        first_outside(ids, set) matches Some(v) ==> !set.contains(v) && exists|k: int|
            0 <= k < ids.len() && #[trigger] ids[k] == v && forall|j: int|
                0 <= j < k ==> set.contains(#[trigger] ids[j]),
    decreases ids.len(),
{
    if first_outside(ids, set) is Some {
        let v = first_outside(ids, set)->0;
        let before = ids.drop_last();
        let n = ids.len() - 1;
        if first_outside(before, set) is Some {
            outside_is_outside(before, set);
            let k = choose|k: int|
                0 <= k < before.len() && #[trigger] before[k] == v && forall|j: int|
                    0 <= j < k ==> set.contains(#[trigger] before[j]);
            assert(ids[k] == v);
            assert forall|j: int| 0 <= j < k implies set.contains(#[trigger] ids[j]) by {
                assert(before[j] == ids[j]);
            }
        } else {
            none_outside_is_contained(before, set);
            assert(ids[n] == v);
            assert forall|j: int| 0 <= j < n implies set.contains(#[trigger] ids[j]) by {
                assert(before[j] == ids[j]);
                assert(before.contains(ids[j]));
            }
        }
    }
}

/// A name is made of lower-case letters, digits, `-` and `_`, and starts with a
/// letter. A qualified one adds dots and one colon. None is longer than 32
/// characters.
pub proof fn names_are_plain(s: Seq<char>)
    requires
        s.len() > 0,
        !s.contains(':'),
    ensures
        name_fault(s) is None ==> s.len() <= 32,
        s.len() <= 32 ==> (name_fault(s) is None <==> 'a' <= s[0] <= 'z' && forall|i: int|
            0 <= i < s.len() ==> ('a' <= #[trigger] s[i] <= 'z' || '0' <= s[i] <= '9' || s[i] == '-'
                || s[i] == '_')),
{
    text::index_of_is_first(s, ':');
    if is_segment(s) {
        segments_are_names(s);
    }
}

/// Which error tells which fault of a proposal.
pub proof fn errors_tell_the_fault(e: LayoutError, v: ViewId, bits: u32)
    ensures
        e.reports(ProposalFault::Duplicate(v)) <==> e == (LayoutError::DuplicateView { id: v.0 }),
        e.reports(ProposalFault::Missing(v)) <==> e == (LayoutError::MissingView { id: v.0 }),
        e.reports(ProposalFault::Unexpected(v)) <==> e == (LayoutError::UnexpectedView {
            id: v.0,
        }),
        e.reports(ProposalFault::EmptyViewSet) <==> e == LayoutError::EmptyViewSet,
        e.reports(ProposalFault::EmptyProposal) <==> e == LayoutError::EmptyProposal,
        e.reports(ProposalFault::Ratio(bits)) ==> (e matches LayoutError::RatioOutOfBounds {
            ratio,
        } && ratio@ == bits),
        e.reports(ProposalFault::Stack) ==> (e matches LayoutError::UnsupportedNode { kind }
            && kind@ == "Stack"@),
        e.reports(ProposalFault::Overlay) ==> (e matches LayoutError::UnsupportedNode { kind }
            && kind@ == "Overlay"@),
{
}

/// A qualified name is an owner of two or more segments with dots between, a
/// colon and an algorithm, which is a segment too.
pub proof fn qualified_names_have_an_owner(owner: Seq<char>, algorithm: Seq<char>)
    requires
        !owner.contains(':'),
        text::byte_len(owner + seq![':'] + algorithm) <= 32,
    ensures
        name_fault(owner + seq![':'] + algorithm) is None <==> is_segment(algorithm)
            && owner.contains('.') && forall|i: int|
            0 <= i < text::pieces(owner, '.').len() ==> is_segment(
                #[trigger] text::pieces(owner, '.')[i],
            ),
{
    let s = owner + seq![':'] + algorithm;
    let k = owner.len() as int;
    assert forall|j: int| 0 <= j < k implies s[j] != ':' by {
        if s[j] == ':' {
            assert(owner[j] == ':');
        }
    }
    text::index_of_unique(s, ':', k);
    assert(s.take(k) =~= owner);
    assert(s.skip(k + 1) =~= algorithm);
    if is_segment(algorithm) {
        assert(!algorithm.contains(':')) by {
            if algorithm.contains(':') {
                let j = choose|j: int| 0 <= j < algorithm.len() && algorithm[j] == ':';
                assert(segment_char(algorithm[j]));
            }
        }
    }
    text::index_of_is_first(owner, '.');
    text::pieces_join_to_the_text(owner, '.');
    text::pieces_join_to_the_text(owner.skip(text::index_of(owner, '.') + 1), '.');
}

} // verus!
