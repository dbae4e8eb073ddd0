//! Panel primitives: identities, lifecycle, typed view content, the focus
//! order of the panels of a workspace, and input routing.

use crate::geometry::Rect;
use crate::seqs;
use crate::text;
use crate::view::ViewId;
use vstd::prelude::*;

pub use crate::panel_command::{
    CommandError, CommandRegistry, QualifiedCommand, MAX_COMMANDS_PER_PANEL_TYPE,
};
pub use crate::panel_overlay::{
    Overlay, OverlayError, OverlayKind, OverlayManager, MAX_OVERLAYS_PER_WINDOW,
    MAX_OVERLAY_TEXT_LEN, MAX_OVERLAY_TOOLTIP_LEN,
};

verus! {

/// Stable handle of a panel instance.
#[derive(Debug, Clone, Copy, PartialEq, Eq, Structural, Hash, PartialOrd, Ord)]
pub struct PanelId(pub u64);

impl PanelId {
    /// Creates an id from a raw value.
    #[must_use]
    pub fn new(raw: u64) -> (id: Self)
        ensures
            id == PanelId(raw),
    {
        Self(raw)
    }

    /// Returns the raw value.
    #[must_use]
    pub fn get(self) -> (raw: u64)
        ensures
            raw == self.0,
    {
        self.0
    }

    /// The spelling `PanelId(<raw>)`.
    pub open spec fn spelled(self) -> Seq<char> {
        "PanelId("@ + text::decimal(self.0 as nat) + ")"@
    }

    /// Spells the id for messages.
    #[must_use]
    pub fn text(self) -> (out: String)
        ensures
            out@ == self.spelled(),
    {
        text::tagged_number("PanelId(", self.0, ")")
    }
}

/// Stable handle of a browser surface.
#[derive(Debug, Clone, Copy, PartialEq, Eq, Structural, Hash, PartialOrd, Ord)]
pub struct BrowserSurfaceId(pub u64);

impl BrowserSurfaceId {
    /// Creates an id from a raw value.
    #[must_use]
    pub fn new(raw: u64) -> (id: Self)
        ensures
            id == BrowserSurfaceId(raw),
    {
        Self(raw)
    }

    /// Returns the raw value.
    #[must_use]
    pub fn get(self) -> (raw: u64)
        ensures
            raw == self.0,
    {
        self.0
    }

    /// Spells the id as `BrowserSurfaceId(<raw>)`.
    #[must_use]
    pub fn text(self) -> (out: String)
        ensures
            out@ == "BrowserSurfaceId("@ + text::decimal(self.0 as nat) + ")"@,
    {
        text::tagged_number("BrowserSurfaceId(", self.0, ")")
    }
}

/// Panel lifecycle states.
#[derive(Debug, Clone, Copy, PartialEq, Eq, Structural, Hash, PartialOrd, Ord)]
pub enum PanelState {
    /// Declared but not yet allocated.
    Declared,
    /// Allocated but not mounted.
    Created,
    /// Bound to an empty view.
    Mounted,
    /// Focused within its workspace.
    Focused,
    /// Invisible without losing its attachment.
    Suspended,
    /// All resources released.
    Disposed,
}

impl PanelState {
    /// A live state: allocated and not yet released.
    pub open spec fn is_live(self) -> bool {
        self != PanelState::Declared && self != PanelState::Disposed
    }

    /// The allowed moves: allocation, mounting, any move between the attached
    /// states other than back to itself, and release from any live state.
    pub open spec fn may_become(self, to: PanelState) -> bool {
        ||| self == PanelState::Declared && to == PanelState::Created
        ||| self == PanelState::Created && to == PanelState::Mounted
        ||| self.is_live() && to == PanelState::Disposed
        ||| self.is_live() && to.is_live() && self != PanelState::Created && to
            != PanelState::Created && self != to
    }

    /// Whether the transition `from -> to` is allowed.
    #[must_use]
    pub fn can_transition(from: Self, to: Self) -> (allowed: bool)
        ensures
            allowed == from.may_become(to),
    {
        match (from, to) {
            (PanelState::Declared, PanelState::Created) => true,
            (PanelState::Created, PanelState::Mounted) => true,
            (PanelState::Mounted, PanelState::Focused) => true,
            (PanelState::Mounted, PanelState::Suspended) => true,
            (PanelState::Focused, PanelState::Suspended) => true,
            (PanelState::Focused, PanelState::Mounted) => true,
            (PanelState::Suspended, PanelState::Mounted) => true,
            (PanelState::Suspended, PanelState::Focused) => true,
            (PanelState::Created, PanelState::Disposed) => true,
            (PanelState::Mounted, PanelState::Disposed) => true,
            (PanelState::Focused, PanelState::Disposed) => true,
            (PanelState::Suspended, PanelState::Disposed) => true,
            _ => false,
        }
    }

    /// The name of the state.
    pub open spec fn spelled(self) -> Seq<char> {
        match self {
            PanelState::Declared => "Declared"@,
            PanelState::Created => "Created"@,
            PanelState::Mounted => "Mounted"@,
            PanelState::Focused => "Focused"@,
            PanelState::Suspended => "Suspended"@,
            PanelState::Disposed => "Disposed"@,
        }
    }

    /// Spells the state for messages.
    #[must_use]
    pub fn text(self) -> (out: String)
        ensures
            out@ == self.spelled(),
    {
        let s: &'static str = match self {
            PanelState::Declared => "Declared",
            PanelState::Created => "Created",
            PanelState::Mounted => "Mounted",
            PanelState::Focused => "Focused",
            PanelState::Suspended => "Suspended",
            PanelState::Disposed => "Disposed",
        };
        s.to_owned()
    }
}

/// No state is re-entered directly, nothing leaves the disposed state, and
/// nothing returns to the declared one.
pub proof fn lifecycle_is_one_way(from: PanelState, to: PanelState)
    requires
        from.may_become(to),
    ensures
        from != to,
        from != PanelState::Disposed,
        to != PanelState::Declared,
        to == PanelState::Created ==> from == PanelState::Declared,
{
}

/// Closed set of panel types.
#[derive(Debug, Clone, Copy, PartialEq, Eq, Structural, Hash, PartialOrd, Ord)]
pub enum PanelType {
    /// A terminal.
    Terminal,
    /// Rich content.
    Rich,
    /// A browser surface.
    Browser,
    /// A helper.
    Helper,
    /// A canvas.
    Canvas,
}

impl PanelType {
    /// The lowercase name of the type.
    pub open spec fn spelled(self) -> Seq<char> {
        match self {
            PanelType::Terminal => "terminal"@,
            PanelType::Rich => "rich"@,
            PanelType::Browser => "browser"@,
            PanelType::Helper => "helper"@,
            PanelType::Canvas => "canvas"@,
        }
    }

    /// The type that a text names.
    pub open spec fn named(s: Seq<char>) -> Option<PanelType> {
        if s == "terminal"@ {
            Some(PanelType::Terminal)
        } else if s == "rich"@ {
            Some(PanelType::Rich)
        } else if s == "browser"@ {
            Some(PanelType::Browser)
        } else if s == "helper"@ {
            Some(PanelType::Helper)
        } else if s == "canvas"@ {
            Some(PanelType::Canvas)
        } else {
            None
        }
    }

    /// Parses a panel type (lowercase, closed set).
    pub fn parse(s: &str) -> (kind: Option<Self>)
        ensures
            kind == PanelType::named(s@),
    {
        if text::same_text(s, "terminal") {
            Some(Self::Terminal)
        } else if text::same_text(s, "rich") {
            Some(Self::Rich)
        } else if text::same_text(s, "browser") {
            Some(Self::Browser)
        } else if text::same_text(s, "helper") {
            Some(Self::Helper)
        } else if text::same_text(s, "canvas") {
            Some(Self::Canvas)
        } else {
            None
        }
    }

    /// The lowercase name.
    #[must_use]
    pub fn as_str(self) -> (s: &'static str)
        ensures
            s@ == self.spelled(),
    {
        match self {
            Self::Terminal => "terminal",
            Self::Rich => "rich",
            Self::Browser => "browser",
            Self::Helper => "helper",
            Self::Canvas => "canvas",
        }
    }

    /// Spells the type for messages.
    #[must_use]
    pub fn text(self) -> (out: String)
        ensures
            out@ == self.spelled(),
    {
        self.as_str().to_owned()
    }
}

/// Parsing the name of a type gives the type back, and only that name does.
pub proof fn type_names_round_trip(kind: PanelType, s: Seq<char>)
    ensures
        PanelType::named(kind.spelled()) == Some(kind),
        PanelType::named(s) == Some(kind) ==> s == kind.spelled(),
{
    reveal_strlit("terminal");
    reveal_strlit("rich");
    reveal_strlit("browser");
    reveal_strlit("helper");
    reveal_strlit("canvas");
    assert("terminal"@.len() == 8 && "rich"@.len() == 4 && "browser"@.len() == 7);
    assert("helper"@.len() == 6 && "canvas"@.len() == 6);
    assert("helper"@[0] != "canvas"@[0]);
}

/// Content hosted inside a view leaf.
#[derive(Debug, Clone, Copy, PartialEq, Eq, Structural, Hash)]
pub enum ViewContent {
    /// Nothing.
    Empty,
    /// A terminal handle.
    Terminal(u64),
    /// A rich content handle.
    Rich(u64),
    /// A browser surface.
    Browser(BrowserSurfaceId),
    /// A panel.
    Panel(PanelId),
}

impl ViewContent {
    /// Whether a panel is hosted.
    #[must_use]
    pub fn is_panel(self) -> (yes: bool)
        ensures
            yes == (self is Panel),
    {
        matches!(self, Self::Panel(_))
    }

    /// The hosted panel, if any.
    #[must_use]
    pub fn panel_id(self) -> (id: Option<PanelId>)
        ensures
            id == match self {
                ViewContent::Panel(p) => Some(p),
                _ => None,
            },
    {
        match self {
            Self::Panel(id) => Some(id),
            _ => None,
        }
    }

    /// Whether a browser surface is hosted.
    #[must_use]
    pub fn is_browser(self) -> (yes: bool)
        ensures
            yes == (self is Browser),
    {
        matches!(self, Self::Browser(_))
    }

    /// The hosted browser surface, if any.
    #[must_use]
    pub fn browser_id(self) -> (id: Option<BrowserSurfaceId>)
        ensures
            id == match self {
                ViewContent::Browser(b) => Some(b),
                _ => None,
            },
    {
        match self {
            Self::Browser(id) => Some(id),
            _ => None,
        }
    }
}

/// Clips panel bounds to their container; `None` when nothing is left.
pub fn validate_panel_bounds(bounds: Rect, container: Rect) -> (clipped: Option<Rect>)
    ensures
        clipped == bounds.common(container),
{
    bounds.clip_to(container)
}

/// The condition of being a panel other than `id`.
pub open spec fn other_than(id: PanelId) -> spec_fn(PanelId) -> bool {
    |x: PanelId| x != id
}

/// The panels of a list other than `id`, in order.
pub open spec fn without_panel(order: Seq<PanelId>, id: PanelId) -> Seq<PanelId> {
    seqs::kept(order, other_than(id))
}

/// Panel focus per workspace with most-recently-used order.
#[derive(Debug, PartialEq, Eq)]
pub struct PanelFocus {
    focused: Option<PanelId>,
    mru: Vec<PanelId>,
}

impl PanelFocus {
    /// The focused panel.
    pub closed spec fn current(self) -> Option<PanelId> {
        self.focused
    }

    /// The panels, most recently focused first.
    pub closed spec fn recent(self) -> Seq<PanelId> {
        self.mru@
    }

    /// No panel is listed twice, and the focused one is listed.
    pub open spec fn wf(self) -> bool {
        &&& self.recent().no_duplicates()
        &&& self.current() matches Some(id) ==> self.recent().contains(id)
    }

    /// Starts without focus.
    #[must_use]
    pub fn new() -> (f: Self)
        ensures
            f.wf(),
            f.current() is None,
            f.recent() == Seq::<PanelId>::empty(),
    {
        Self { focused: None, mru: Vec::new() }
    }

    /// The focused panel.
    #[must_use]
    pub fn focused(&self) -> (id: Option<PanelId>)
        ensures
            id == self.current(),
    {
        self.focused
    }

    /// Focuses a panel and moves it to the front of the order.
    pub fn set(&mut self, id: PanelId)
        requires
            old(self).wf(),
        ensures
            final(self).wf(),
            final(self).current() == Some(id),
            final(self).recent() == seq![id] + without_panel(old(self).recent(), id),
    {
        proof {
            seqs::kept_holds(self.mru@, other_than(id));
            seqs::kept_no_duplicates(self.mru@, other_than(id));
        }
        let rest = others(&self.mru, id);
        let mut order: Vec<PanelId> = Vec::new();
        order.push(id);
        let mut i: usize = 0;
        while i < rest.len()
            invariant
                0 <= i <= rest.len(),
                order@ == seq![id] + rest@.take(i as int),
            decreases rest.len() - i,
        {
            order.push(rest[i]);
            i = i + 1;
            assert(order@ =~= seq![id] + rest@.take(i as int));
        }
        assert(rest@.take(i as int) =~= rest@);
        self.focused = Some(id);
        self.mru = order;
        assert(self.mru@[0] == id);
        assert(!rest@.contains(id));
        assert forall|a: int, b: int|
            0 <= a < self.mru@.len() && 0 <= b < self.mru@.len() && a != b implies self.mru@[a]
            != self.mru@[b] by {
            if a == 0 {
                assert(rest@.contains(rest@[b - 1]));
            } else if b == 0 {
                assert(rest@.contains(rest@[a - 1]));
            }
        }
    }

    /// Drops the focus and keeps the order.
    pub fn clear(&mut self)
        requires
            old(self).wf(),
        ensures
            final(self).wf(),
            final(self).current() is None,
            final(self).recent() == old(self).recent(),
    {
        self.focused = None;
    }

    /// The panels, most recently focused first.
    #[must_use]
    pub fn mru_order(&self) -> (order: Vec<PanelId>)
        ensures
            order@ == self.recent(),
    {
        let mut order: Vec<PanelId> = Vec::new();
        let mut i: usize = 0;
        while i < self.mru.len()
            invariant
                0 <= i <= self.mru.len(),
                order@ == self.mru@.take(i as int),
            decreases self.mru.len() - i,
        {
            order.push(self.mru[i]);
            i = i + 1;
            assert(order@ =~= self.mru@.take(i as int));
        }
        assert(order@ =~= self.mru@);
        order
    }

    /// Forgets a hidden panel; when it was focused, the most recent of the
    /// remaining ones is focused.
    pub fn on_panel_hidden(&mut self, hidden: PanelId)
        requires
            old(self).wf(),
        ensures
            final(self).wf(),
            final(self).recent() == without_panel(old(self).recent(), hidden),
            final(self).current() == (if old(self).current() != Some(hidden) {
                old(self).current()
            } else if final(self).recent().len() > 0 {
                Some(final(self).recent()[0])
            } else {
                None
            }),
            final(self).current() != Some(hidden),
    {
        proof {
            seqs::kept_holds(self.mru@, other_than(hidden));
            seqs::kept_no_duplicates(self.mru@, other_than(hidden));
        }
        let rest = others(&self.mru, hidden);
        if self.focused == Some(hidden) {
            if rest.len() > 0 {
                assert(rest@.contains(rest@[0]));
                self.focused = Some(rest[0]);
            } else {
                self.focused = None;
            }
        }
        self.mru = rest;
    }

    /// Whether the panel is focused.
    #[must_use]
    pub fn is_focused(&self, id: PanelId) -> (yes: bool)
        ensures
            yes == (self.current() == Some(id)),
    {
        self.focused == Some(id)
    }
}

impl Default for PanelFocus {
    fn default() -> (f: Self)
        ensures
            f.wf(),
            f.current() is None,
            f.recent() == Seq::<PanelId>::empty(),
    {
        Self::new()
    }
}

impl Clone for PanelFocus {
    fn clone(&self) -> (f: Self)
        ensures
            f.current() == self.current(),
            f.recent() == self.recent(),
    {
        Self { focused: self.focused, mru: self.mru_order() }
    }
}

pub(crate) fn others(order: &Vec<PanelId>, id: PanelId) -> (rest: Vec<PanelId>)
    ensures
        rest@ == without_panel(order@, id),
{
    let mut rest: Vec<PanelId> = Vec::new();
    let mut i: usize = 0;
    while i < order.len()
        invariant
            0 <= i <= order.len(),
            rest@ == without_panel(order@.take(i as int), id),
        decreases order.len() - i,
    {
        assert(order@.take(i + 1).drop_last() =~= order@.take(i as int));
        if order[i] != id {
            rest.push(order[i]);
        }
        i = i + 1;
    }
    assert(order@.take(i as int) =~= order@);
    rest
}

/// Hiding a panel that was just focused brings back the focus that the
/// remaining panels had: the most recent one among them.
pub proof fn hiding_undoes_focusing(order: Seq<PanelId>, id: PanelId)
    requires
        order.no_duplicates(),
        !order.contains(id),
    ensures
        without_panel(seq![id] + without_panel(order, id), id) == order,
{
    let p = other_than(id);
    assert forall|i: int| 0 <= i < order.len() implies p(#[trigger] order[i]) by {
        assert(order.contains(order[i]));
    }
    seqs::kept_all(order, p);
    assert(without_panel(order, id) == order);
    lemma_front_dropped(order, id);
}

proof fn lemma_front_dropped(order: Seq<PanelId>, id: PanelId)
    ensures
        without_panel(seq![id] + order, id) == without_panel(order, id),
    decreases order.len(),
{
    let s = seq![id] + order;
    if order.len() > 0 {
        lemma_front_dropped(order.drop_last(), id);
        assert(s.drop_last() =~= seq![id] + order.drop_last());
        assert(s.last() == order.last());
    } else {
        reveal_with_fuel(seqs::kept, 2);
        assert(s.drop_last() =~= order);
        assert(s.last() == id);
    }
}

/// Routing target of input events.
#[derive(Debug, Clone, Copy, PartialEq, Eq, Structural)]
pub enum InputTarget {
    /// The focused panel.
    Panel(PanelId),
    /// The focused view.
    View(ViewId),
    /// Nothing is focused.
    Nothing,
}

/// Determines the input target: a focused panel owns routing, otherwise the
/// view focus applies.
#[must_use]
pub fn route_input(panel_focus: Option<PanelId>, view_focus: Option<ViewId>) -> (target:
    InputTarget)
    ensures
        target == match (panel_focus, view_focus) {
            (Some(p), _) => InputTarget::Panel(p),
            (None, Some(v)) => InputTarget::View(v),
            (None, None) => InputTarget::Nothing,
        },
{
    if let Some(pid) = panel_focus {
        InputTarget::Panel(pid)
    } else if let Some(vid) = view_focus {
        InputTarget::View(vid)
    } else {
        InputTarget::Nothing
    }
}

/// The steps that a panel may take: it is created once it is declared, mounted
/// once it is created, and then goes to and fro between mounted, focused and
/// suspended. Every panel that was created may be disposed of, and a disposed one
/// stays so.
pub proof fn panels_step_through_their_life(from: PanelState, to: PanelState)
    ensures
        from == PanelState::Declared ==> (from.may_become(to) <==> to == PanelState::Created),
        from == PanelState::Created ==> (from.may_become(to) <==> to == PanelState::Mounted || to
            == PanelState::Disposed),
        from == PanelState::Mounted ==> (from.may_become(to) <==> to == PanelState::Focused || to
            == PanelState::Suspended || to == PanelState::Disposed),
        from == PanelState::Focused ==> (from.may_become(to) <==> to == PanelState::Mounted || to
            == PanelState::Suspended || to == PanelState::Disposed),
        from == PanelState::Suspended ==> (from.may_become(to) <==> to == PanelState::Mounted || to
            == PanelState::Focused || to == PanelState::Disposed),
        from == PanelState::Disposed ==> !from.may_become(to),
{
}

/// Taking a panel out of a list leaves all other entries, in order.
pub proof fn other_panels_stay_listed(order: Seq<PanelId>, id: PanelId, x: PanelId)
    ensures
        without_panel(order, id) == order.filter(|y: PanelId| y != id),
        without_panel(order, id).contains(x) <==> order.contains(x) && x != id,
        without_panel(order.push(x), id) == (if x == id {
            without_panel(order, id)
        } else {
            without_panel(order, id).push(x)
        }),
{
    seqs::keeping_filters(order, other_than(id));
    seqs::kept_holds(order, other_than(id));
    assert(other_than(id) =~= (|y: PanelId| y != id));
    assert(order.push(x).drop_last() =~= order);
}

/// The words that name a type of panel.
pub proof fn types_are_named(s: Seq<char>)
    ensures
        PanelType::named(s) == Some(PanelType::Terminal) <==> s == "terminal"@,
        PanelType::named(s) == Some(PanelType::Rich) <==> s == "rich"@,
        PanelType::named(s) == Some(PanelType::Browser) <==> s == "browser"@,
        PanelType::named(s) == Some(PanelType::Helper) <==> s == "helper"@,
        PanelType::named(s) == Some(PanelType::Canvas) <==> s == "canvas"@,
{
    type_names_round_trip(PanelType::Terminal, s);
    type_names_round_trip(PanelType::Rich, s);
    type_names_round_trip(PanelType::Browser, s);
    type_names_round_trip(PanelType::Helper, s);
    type_names_round_trip(PanelType::Canvas, s);
}

} // verus!
