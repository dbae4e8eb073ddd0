//! The seven state axes of a panel: lifecycle, presentation, visibility, focus,
//! attention, interaction and activity.

use crate::panel::PanelId;
use crate::presentation::PresentationMode;
use crate::text;
use crate::uitree::UiNodeId;
use vstd::prelude::*;
use vstd::string::*;

verus! {

/// Most panels with state in one registry.
pub const MAX_PANELS_WITH_STATE: usize = 256;

/// Largest badge count that is shown.
pub const MAX_BADGE_COUNT: u32 = 999;

/// Longest badge text in characters.
pub const MAX_BADGE_TEXT_LEN: usize = 64;

/// Failure of a state change.
#[derive(Debug, Clone, Copy, PartialEq, Eq, Structural)]
pub enum PanelStateError {
    /// The lifecycle transition is not allowed.
    IllegalTransition { from: PanelLifecycle, to: PanelLifecycle },
    /// The badge text is too long.
    BadgeTextTooLong { found: usize, cap: usize },
    /// The panel is disposed.
    AlreadyDisposed,
    /// There are too many panels.
    TooManyPanels { found: usize, cap: usize },
}

impl PanelStateError {
    /// The message of the error.
    pub open spec fn spelled(self) -> Seq<char> {
        match self {
            PanelStateError::IllegalTransition { from, to } => "illegal lifecycle transition "@
                + from.spelled() + " -> "@ + to.spelled(),
            PanelStateError::BadgeTextTooLong { found, cap } => "badge text too long: "@
                + text::decimal(found as nat) + " chars, cap "@ + text::decimal(cap as nat),
            PanelStateError::AlreadyDisposed => "panel already disposed"@,
            PanelStateError::TooManyPanels { found, cap } => "too many panels: "@ + text::decimal(
                found as nat,
            ) + ", cap "@ + text::decimal(cap as nat),
        }
    }

    /// Spells the error.
    #[must_use]
    pub fn text(&self) -> (out: String)
        ensures
            out@ == self.spelled(),
    {
        match self {
            Self::IllegalTransition { from, to } => {
                let mut out = text::joined3(
                    "illegal lifecycle transition ",
                    from.as_str(),
                    " -> ",
                );
                out.append(to.as_str());
                out
            },
            Self::BadgeTextTooLong { found, cap } => text::ending_numbers(
                "badge text too long: ",
                *found as u64,
                " chars, cap ",
                *cap as u64,
            ),
            Self::AlreadyDisposed => "panel already disposed".to_owned(),
            Self::TooManyPanels { found, cap } => text::ending_numbers(
                "too many panels: ",
                *found as u64,
                ", cap ",
                *cap as u64,
            ),
        }
    }
}

/// Lifecycle axis.
#[derive(Debug, Clone, Copy, PartialEq, Eq, Structural, Hash, PartialOrd, Ord)]
pub enum PanelLifecycle {
    /// Declared but not yet allocated.
    Declared,
    /// Allocated but not mounted.
    Created,
    /// Bound to a view.
    Mounted,
    /// Mounted and owning input routing.
    Focused,
    /// Invisible without losing its attachment.
    Suspended,
    /// Closed by the user: hidden and unfocused, plugin still loaded.
    Closed,
    /// All resources released.
    Disposed,
}

impl PanelLifecycle {
    /// The allowed moves: staying, the way up to mounted, the moves between the
    /// attached states, back from closed, and release.
    pub open spec fn may_become(self, to: PanelLifecycle) -> bool {
        ||| self == to
        ||| self is Declared && to is Created
        ||| self is Created && to is Mounted
        ||| self is Mounted && (to is Focused || to is Suspended || to is Disposed)
        ||| self is Focused && (to is Mounted || to is Suspended)
        ||| self is Suspended && (to is Mounted || to is Disposed)
        ||| self is Closed && (to is Mounted || to is Disposed)
    }

    /// Whether the transition `from -> to` is allowed.
    #[must_use]
    pub fn can_transition(from: Self, to: Self) -> (allowed: bool)
        ensures
            allowed == from.may_become(to),
    {
        if from == to {
            return true;
        }
        match (from, to) {
            (Self::Declared, Self::Created) => true,
            (Self::Created, Self::Mounted) => true,
            (Self::Mounted, Self::Focused) => true,
            (Self::Mounted, Self::Suspended) => true,
            (Self::Focused, Self::Mounted) => true,
            (Self::Focused, Self::Suspended) => true,
            (Self::Suspended, Self::Mounted) => true,
            (Self::Closed, Self::Mounted) => true,
            (Self::Suspended, Self::Disposed) => true,
            (Self::Closed, Self::Disposed) => true,
            (Self::Mounted, Self::Disposed) => true,
            _ => false,
        }
    }

    /// Closing is allowed from every state but the disposed one.
    #[must_use]
    pub fn can_close(from: Self) -> (allowed: bool)
        ensures
            allowed == !(from is Disposed),
    {
        !matches!(from, Self::Disposed)
    }

    /// The canonical lowercase spelling.
    pub open spec fn spelled(self) -> Seq<char> {
        match self {
            PanelLifecycle::Declared => "declared"@,
            PanelLifecycle::Created => "created"@,
            PanelLifecycle::Mounted => "mounted"@,
            PanelLifecycle::Focused => "focused"@,
            PanelLifecycle::Suspended => "suspended"@,
            PanelLifecycle::Closed => "closed"@,
            PanelLifecycle::Disposed => "disposed"@,
        }
    }

    /// The value that a text names.
    pub open spec fn named(s: Seq<char>) -> Option<PanelLifecycle> {
        if s == "declared"@ {
            Some(PanelLifecycle::Declared)
        } else if s == "created"@ {
            Some(PanelLifecycle::Created)
        } else if s == "mounted"@ {
            Some(PanelLifecycle::Mounted)
        } else if s == "focused"@ {
            Some(PanelLifecycle::Focused)
        } else if s == "suspended"@ {
            Some(PanelLifecycle::Suspended)
        } else if s == "closed"@ {
            Some(PanelLifecycle::Closed)
        } else if s == "disposed"@ {
            Some(PanelLifecycle::Disposed)
        } else {
            None
        }
    }

    /// Parses the canonical spelling.
    #[must_use]
    pub fn parse(s: &str) -> (v: Option<Self>)
        ensures
            v == PanelLifecycle::named(s@),
    {
        if text::same_text(s, "declared") {
            Some(Self::Declared)
        } else if text::same_text(s, "created") {
            Some(Self::Created)
        } else if text::same_text(s, "mounted") {
            Some(Self::Mounted)
        } else if text::same_text(s, "focused") {
            Some(Self::Focused)
        } else if text::same_text(s, "suspended") {
            Some(Self::Suspended)
        } else if text::same_text(s, "closed") {
            Some(Self::Closed)
        } else if text::same_text(s, "disposed") {
            Some(Self::Disposed)
        } else {
            None
        }
    }

    /// The canonical spelling.
    #[must_use]
    pub fn as_str(self) -> (s: &'static str)
        ensures
            s@ == self.spelled(),
    {
        match self {
            Self::Declared => "declared",
            Self::Created => "created",
            Self::Mounted => "mounted",
            Self::Focused => "focused",
            Self::Suspended => "suspended",
            Self::Closed => "closed",
            Self::Disposed => "disposed",
        }
    }

    /// Spells the value for messages.
    #[must_use]
    pub fn text(self) -> (out: String)
        ensures
            out@ == self.spelled(),
    {
        self.as_str().to_owned()
    }
}

/// Parsing the spelling of a value gives it back, and only that spelling does.
pub proof fn panel_lifecycle_round_trips(v: PanelLifecycle, s: Seq<char>)
    ensures
        PanelLifecycle::named(v.spelled()) == Some(v),
        PanelLifecycle::named(s) == Some(v) ==> s == v.spelled(),
{
    reveal_strlit("declared");
    reveal_strlit("created");
    reveal_strlit("mounted");
    reveal_strlit("focused");
    reveal_strlit("suspended");
    reveal_strlit("closed");
    reveal_strlit("disposed");
    assert("declared"@.len() == 8);
    assert("created"@.len() == 7);
    assert("mounted"@.len() == 7);
    assert("focused"@.len() == 7);
    assert("suspended"@.len() == 9);
    assert("closed"@.len() == 6);
    assert("disposed"@.len() == 8);
    assert("declared"@[1] != "disposed"@[1]);
    assert("created"@[0] != "mounted"@[0]);
    assert("created"@[0] != "focused"@[0]);
    assert("mounted"@[0] != "focused"@[0]);
}

/// Nothing but staying leaves the disposed state.
pub proof fn disposal_is_final(to: PanelLifecycle)
    ensures
        PanelLifecycle::Disposed.may_become(to) <==> to == PanelLifecycle::Disposed,
{
}

/// Visibility axis: whether the panel shows.
#[derive(Debug, Clone, Copy, PartialEq, Eq, Structural, Hash, PartialOrd, Ord)]
pub enum PanelVisibility {
    /// Currently shown.
    Visible,
    /// Hidden by the user, the workspace, or close.
    Hidden,
    /// Covered by an overlay or a floating panel.
    Occluded,
    /// Minimized to a task strip.
    Minimized,
}

impl PanelVisibility {
    /// The canonical lowercase spelling.
    pub open spec fn spelled(self) -> Seq<char> {
        match self {
            PanelVisibility::Visible => "visible"@,
            PanelVisibility::Hidden => "hidden"@,
            PanelVisibility::Occluded => "occluded"@,
            PanelVisibility::Minimized => "minimized"@,
        }
    }

    /// The value that a text names.
    pub open spec fn named(s: Seq<char>) -> Option<PanelVisibility> {
        if s == "visible"@ {
            Some(PanelVisibility::Visible)
        } else if s == "hidden"@ {
            Some(PanelVisibility::Hidden)
        } else if s == "occluded"@ {
            Some(PanelVisibility::Occluded)
        } else if s == "minimized"@ {
            Some(PanelVisibility::Minimized)
        } else {
            None
        }
    }

    /// Parses the canonical spelling.
    #[must_use]
    pub fn parse(s: &str) -> (v: Option<Self>)
        ensures
            v == PanelVisibility::named(s@),
    {
        if text::same_text(s, "visible") {
            Some(Self::Visible)
        } else if text::same_text(s, "hidden") {
            Some(Self::Hidden)
        } else if text::same_text(s, "occluded") {
            Some(Self::Occluded)
        } else if text::same_text(s, "minimized") {
            Some(Self::Minimized)
        } else {
            None
        }
    }

    /// The canonical spelling.
    #[must_use]
    pub fn as_str(self) -> (s: &'static str)
        ensures
            s@ == self.spelled(),
    {
        match self {
            Self::Visible => "visible",
            Self::Hidden => "hidden",
            Self::Occluded => "occluded",
            Self::Minimized => "minimized",
        }
    }

    /// Spells the value for messages.
    #[must_use]
    pub fn text(self) -> (out: String)
        ensures
            out@ == self.spelled(),
    {
        self.as_str().to_owned()
    }
}

/// Parsing the spelling of a value gives it back, and only that spelling does.
pub proof fn panel_visibility_round_trips(v: PanelVisibility, s: Seq<char>)
    ensures
        PanelVisibility::named(v.spelled()) == Some(v),
        PanelVisibility::named(s) == Some(v) ==> s == v.spelled(),
{
    reveal_strlit("visible");
    reveal_strlit("hidden");
    reveal_strlit("occluded");
    reveal_strlit("minimized");
    assert("visible"@.len() == 7);
    assert("hidden"@.len() == 6);
    assert("occluded"@.len() == 8);
    assert("minimized"@.len() == 9);
}

/// Focus axis.
#[derive(Debug, Clone, Copy, PartialEq, Eq, Structural, Hash, PartialOrd, Ord)]
pub enum PanelFocusState {
    /// Owning input routing in its scope.
    Focused,
    /// Not owning routing.
    Unfocused,
}

impl PanelFocusState {
    /// The canonical lowercase spelling.
    pub open spec fn spelled(self) -> Seq<char> {
        match self {
            PanelFocusState::Focused => "focused"@,
            PanelFocusState::Unfocused => "unfocused"@,
        }
    }

    /// The value that a text names.
    pub open spec fn named(s: Seq<char>) -> Option<PanelFocusState> {
        if s == "focused"@ {
            Some(PanelFocusState::Focused)
        } else if s == "unfocused"@ {
            Some(PanelFocusState::Unfocused)
        } else {
            None
        }
    }

    /// Parses the canonical spelling.
    #[must_use]
    pub fn parse(s: &str) -> (v: Option<Self>)
        ensures
            v == PanelFocusState::named(s@),
    {
        if text::same_text(s, "focused") {
            Some(Self::Focused)
        } else if text::same_text(s, "unfocused") {
            Some(Self::Unfocused)
        } else {
            None
        }
    }

    /// The canonical spelling.
    #[must_use]
    pub fn as_str(self) -> (s: &'static str)
        ensures
            s@ == self.spelled(),
    {
        match self {
            Self::Focused => "focused",
            Self::Unfocused => "unfocused",
        }
    }

    /// Spells the value for messages.
    #[must_use]
    pub fn text(self) -> (out: String)
        ensures
            out@ == self.spelled(),
    {
        self.as_str().to_owned()
    }
}

/// Parsing the spelling of a value gives it back, and only that spelling does.
pub proof fn panel_focus_state_round_trips(v: PanelFocusState, s: Seq<char>)
    ensures
        PanelFocusState::named(v.spelled()) == Some(v),
        PanelFocusState::named(s) == Some(v) ==> s == v.spelled(),
{
    reveal_strlit("focused");
    reveal_strlit("unfocused");
    assert("focused"@.len() == 7);
    assert("unfocused"@.len() == 9);
}

/// What the attention axis says.
pub ghost enum Attention {
    /// Nothing needs the user.
    Quiet,
    /// A counted badge with a label.
    Badge { count: u32, label: Seq<char> },
    /// An uncounted glow.
    Highlight,
    /// Immediate focus is needed.
    Urgent,
}

impl Attention {
    /// The badge label, if there is one, keeps its bound.
    pub open spec fn bounded(self) -> bool {
        self matches Attention::Badge { label, .. } ==> label.len() <= MAX_BADGE_TEXT_LEN
    }
}

/// Attention axis.
#[derive(Debug, PartialEq, Eq)]
pub enum PanelAttention {
    /// Nothing needs the user.
    Quiet,
    /// Counted badge with a short label.
    Badge { count: u32, text: String },
    /// Uncounted glow.
    Highlight,
    /// Demands immediate focus.
    Urgent,
}

impl View for PanelAttention {
    type V = Attention;

    open spec fn view(&self) -> Attention {
        match *self {
            PanelAttention::Quiet => Attention::Quiet,
            PanelAttention::Badge { count, text } => Attention::Badge { count, label: text@ },
            PanelAttention::Highlight => Attention::Highlight,
            PanelAttention::Urgent => Attention::Urgent,
        }
    }
}

impl PanelAttention {
    /// Builds a badge; a label that is too long is refused.
    pub fn badge(count: u32, text: &str) -> (r: Result<Self, PanelStateError>)
        ensures
            match r {
                Ok(a) => text@.len() <= MAX_BADGE_TEXT_LEN && a@ == (Attention::Badge {
                    count,
                    label: text@,
                }),
                Err(e) => text@.len() > MAX_BADGE_TEXT_LEN && e
                    == (PanelStateError::BadgeTextTooLong {
                    found: text@.len() as usize,
                    cap: MAX_BADGE_TEXT_LEN,
                }),
            },
    {
        let chars = text::chars_of(text);
        let found: usize = chars.len();
        if found > MAX_BADGE_TEXT_LEN {
            return Err(PanelStateError::BadgeTextTooLong { found, cap: MAX_BADGE_TEXT_LEN });
        }
        Ok(Self::Badge { count, text: text.to_owned() })
    }

    /// The count that is shown, at most [`MAX_BADGE_COUNT`].
    #[must_use]
    pub fn display_count(&self) -> (shown: Option<u32>)
        ensures
            shown == match self@ {
                Attention::Badge { count, .. } => Some(
                    if count > MAX_BADGE_COUNT {
                        MAX_BADGE_COUNT
                    } else {
                        count
                    },
                ),
                _ => None,
            },
    {
        match self {
            Self::Badge { count, .. } => {
                if *count > MAX_BADGE_COUNT {
                    Some(MAX_BADGE_COUNT)
                } else {
                    Some(*count)
                }
            },
            Self::Quiet | Self::Highlight | Self::Urgent => None,
        }
    }

    /// Whether the shown count is less than the stored one.
    #[must_use]
    pub fn is_saturated(&self) -> (yes: bool)
        ensures
            yes == (self@ matches Attention::Badge { count, .. } && count > MAX_BADGE_COUNT),
    {
        match self {
            Self::Badge { count, .. } => *count > MAX_BADGE_COUNT,
            Self::Quiet | Self::Highlight | Self::Urgent => false,
        }
    }

    /// The canonical name of the kind.
    #[must_use]
    pub fn kind_str(&self) -> (s: &'static str)
        ensures
            s@ == match self@ {
                Attention::Quiet => "quiet"@,
                Attention::Badge { .. } => "badge"@,
                Attention::Highlight => "highlight"@,
                Attention::Urgent => "urgent"@,
            },
    {
        match self {
            Self::Quiet => "quiet",
            Self::Badge { .. } => "badge",
            Self::Highlight => "highlight",
            Self::Urgent => "urgent",
        }
    }
}

impl Clone for PanelAttention {
    fn clone(&self) -> (a: Self)
        ensures
            a@ == self@,
    {
        match self {
            Self::Quiet => Self::Quiet,
            Self::Badge { count, text } => Self::Badge { count: *count, text: text.clone() },
            Self::Highlight => Self::Highlight,
            Self::Urgent => Self::Urgent,
        }
    }
}

/// Interaction axis: the gesture in progress.
#[derive(Debug, Clone, Copy, PartialEq, Eq, Structural, Hash, PartialOrd, Ord)]
pub enum PanelInteraction {
    /// No gesture in progress.
    Idle,
    /// Pointer hovering, nothing pressed.
    Hovered,
    /// Pointer or key pressed.
    Pressed,
    /// A move gesture is driving the panel.
    Dragging,
    /// Text is being composed into the panel.
    Typing,
}

impl PanelInteraction {
    /// The canonical lowercase spelling.
    pub open spec fn spelled(self) -> Seq<char> {
        match self {
            PanelInteraction::Idle => "idle"@,
            PanelInteraction::Hovered => "hovered"@,
            PanelInteraction::Pressed => "pressed"@,
            PanelInteraction::Dragging => "dragging"@,
            PanelInteraction::Typing => "typing"@,
        }
    }

    /// The value that a text names.
    pub open spec fn named(s: Seq<char>) -> Option<PanelInteraction> {
        if s == "idle"@ {
            Some(PanelInteraction::Idle)
        } else if s == "hovered"@ {
            Some(PanelInteraction::Hovered)
        } else if s == "pressed"@ {
            Some(PanelInteraction::Pressed)
        } else if s == "dragging"@ {
            Some(PanelInteraction::Dragging)
        } else if s == "typing"@ {
            Some(PanelInteraction::Typing)
        } else {
            None
        }
    }

    /// Parses the canonical spelling.
    #[must_use]
    pub fn parse(s: &str) -> (v: Option<Self>)
        ensures
            v == PanelInteraction::named(s@),
    {
        if text::same_text(s, "idle") {
            Some(Self::Idle)
        } else if text::same_text(s, "hovered") {
            Some(Self::Hovered)
        } else if text::same_text(s, "pressed") {
            Some(Self::Pressed)
        } else if text::same_text(s, "dragging") {
            Some(Self::Dragging)
        } else if text::same_text(s, "typing") {
            Some(Self::Typing)
        } else {
            None
        }
    }

    /// The canonical spelling.
    #[must_use]
    pub fn as_str(self) -> (s: &'static str)
        ensures
            s@ == self.spelled(),
    {
        match self {
            Self::Idle => "idle",
            Self::Hovered => "hovered",
            Self::Pressed => "pressed",
            Self::Dragging => "dragging",
            Self::Typing => "typing",
        }
    }

    /// Spells the value for messages.
    #[must_use]
    pub fn text(self) -> (out: String)
        ensures
            out@ == self.spelled(),
    {
        self.as_str().to_owned()
    }
}

/// Parsing the spelling of a value gives it back, and only that spelling does.
pub proof fn panel_interaction_round_trips(v: PanelInteraction, s: Seq<char>)
    ensures
        PanelInteraction::named(v.spelled()) == Some(v),
        PanelInteraction::named(s) == Some(v) ==> s == v.spelled(),
{
    reveal_strlit("idle");
    reveal_strlit("hovered");
    reveal_strlit("pressed");
    reveal_strlit("dragging");
    reveal_strlit("typing");
    assert("idle"@.len() == 4);
    assert("hovered"@.len() == 7);
    assert("pressed"@.len() == 7);
    assert("dragging"@.len() == 8);
    assert("typing"@.len() == 6);
    assert("hovered"@[0] != "pressed"@[0]);
}

/// Activity axis: whether the content is live.
#[derive(Debug, Clone, Copy, PartialEq, Eq, Structural, Hash, PartialOrd, Ord)]
pub enum PanelActivity {
    /// Producing or consuming events.
    Active,
    /// Mounted but quiet.
    Idle,
    /// Parked; cheap to resume.
    Suspended,
    /// Its content source went away.
    Stale,
}

impl PanelActivity {
    /// The canonical lowercase spelling.
    pub open spec fn spelled(self) -> Seq<char> {
        match self {
            PanelActivity::Active => "active"@,
            PanelActivity::Idle => "idle"@,
            PanelActivity::Suspended => "suspended"@,
            PanelActivity::Stale => "stale"@,
        }
    }

    /// The value that a text names.
    pub open spec fn named(s: Seq<char>) -> Option<PanelActivity> {
        if s == "active"@ {
            Some(PanelActivity::Active)
        } else if s == "idle"@ {
            Some(PanelActivity::Idle)
        } else if s == "suspended"@ {
            Some(PanelActivity::Suspended)
        } else if s == "stale"@ {
            Some(PanelActivity::Stale)
        } else {
            None
        }
    }

    /// Parses the canonical spelling.
    #[must_use]
    pub fn parse(s: &str) -> (v: Option<Self>)
        ensures
            v == PanelActivity::named(s@),
    {
        if text::same_text(s, "active") {
            Some(Self::Active)
        } else if text::same_text(s, "idle") {
            Some(Self::Idle)
        } else if text::same_text(s, "suspended") {
            Some(Self::Suspended)
        } else if text::same_text(s, "stale") {
            Some(Self::Stale)
        } else {
            None
        }
    }

    /// The canonical spelling.
    #[must_use]
    pub fn as_str(self) -> (s: &'static str)
        ensures
            s@ == self.spelled(),
    {
        match self {
            Self::Active => "active",
            Self::Idle => "idle",
            Self::Suspended => "suspended",
            Self::Stale => "stale",
        }
    }

    /// Spells the value for messages.
    #[must_use]
    pub fn text(self) -> (out: String)
        ensures
            out@ == self.spelled(),
    {
        self.as_str().to_owned()
    }
}

/// Parsing the spelling of a value gives it back, and only that spelling does.
pub proof fn panel_activity_round_trips(v: PanelActivity, s: Seq<char>)
    ensures
        PanelActivity::named(v.spelled()) == Some(v),
        PanelActivity::named(s) == Some(v) ==> s == v.spelled(),
{
    reveal_strlit("active");
    reveal_strlit("idle");
    reveal_strlit("suspended");
    reveal_strlit("stale");
    assert("active"@.len() == 6);
    assert("idle"@.len() == 4);
    assert("suspended"@.len() == 9);
    assert("stale"@.len() == 5);
}

/// Outcome of closing a panel.
#[derive(Debug, Clone, Copy, PartialEq, Eq, Structural)]
pub struct CloseOutcome {
    /// The plugin stays loaded.
    pub plugin_retained: bool,
    /// The panel can be opened again.
    pub reopenable: bool,
}

/// The seven axes of a panel with its identities.
pub ghost struct Axes {
    /// The panel.
    pub panel: PanelId,
    /// Its tree node.
    pub node: UiNodeId,
    /// Lifecycle axis.
    pub lifecycle: PanelLifecycle,
    /// Presentation axis.
    pub presentation: PresentationMode,
    /// Visibility axis.
    pub visibility: PanelVisibility,
    /// Focus axis.
    pub focus: PanelFocusState,
    /// Attention axis.
    pub attention: Attention,
    /// Interaction axis.
    pub interaction: PanelInteraction,
    /// Activity axis.
    pub activity: PanelActivity,
}

impl Axes {
    /// A fresh panel: declared, tiled, hidden, unfocused, quiet, idle and
    /// suspended.
    pub open spec fn fresh(panel: PanelId, node: UiNodeId) -> Axes {
        Axes {
            panel,
            node,
            lifecycle: PanelLifecycle::Declared,
            presentation: PresentationMode::Tiled,
            visibility: PanelVisibility::Hidden,
            focus: PanelFocusState::Unfocused,
            attention: Attention::Quiet,
            interaction: PanelInteraction::Idle,
            activity: PanelActivity::Suspended,
        }
    }

    /// Why the lifecycle cannot step to `to`.
    pub open spec fn step_fault(self, to: PanelLifecycle) -> Option<PanelStateError> {
        if self.lifecycle is Disposed {
            Some(PanelStateError::AlreadyDisposed)
        } else if self.lifecycle.may_become(to) {
            None
        } else {
            Some(PanelStateError::IllegalTransition { from: self.lifecycle, to })
        }
    }

    /// The closed panel: hidden, unfocused and idle, everything else kept.
    pub open spec fn closed(self) -> Axes {
        Axes {
            lifecycle: PanelLifecycle::Closed,
            visibility: PanelVisibility::Hidden,
            focus: PanelFocusState::Unfocused,
            interaction: PanelInteraction::Idle,
            ..self
        }
    }
}

/// The seven axes of a panel.
#[derive(Debug, PartialEq, Eq)]
pub struct SevenPanelState {
    panel: PanelId,
    node: UiNodeId,
    lifecycle: PanelLifecycle,
    presentation: PresentationMode,
    visibility: PanelVisibility,
    focus: PanelFocusState,
    attention: PanelAttention,
    interaction: PanelInteraction,
    activity: PanelActivity,
}

impl View for SevenPanelState {
    type V = Axes;

    closed spec fn view(&self) -> Axes {
        Axes {
            panel: self.panel,
            node: self.node,
            lifecycle: self.lifecycle,
            presentation: self.presentation,
            visibility: self.visibility,
            focus: self.focus,
            attention: self.attention@,
            interaction: self.interaction,
            activity: self.activity,
        }
    }
}

impl SevenPanelState {
    /// Creates the state of a fresh panel.
    #[must_use]
    pub fn new(panel: PanelId, node: UiNodeId) -> (s: Self)
        ensures
            s@ == Axes::fresh(panel, node),
    {
        Self {
            panel,
            node,
            lifecycle: PanelLifecycle::Declared,
            presentation: PresentationMode::Tiled,
            visibility: PanelVisibility::Hidden,
            focus: PanelFocusState::Unfocused,
            attention: PanelAttention::Quiet,
            interaction: PanelInteraction::Idle,
            activity: PanelActivity::Suspended,
        }
    }

    /// The panel.
    #[must_use]
    pub fn panel(&self) -> (v: PanelId)
        ensures
            v == self@.panel,
    {
        self.panel
    }

    /// The tree node of the panel.
    #[must_use]
    pub fn node(&self) -> (v: UiNodeId)
        ensures
            v == self@.node,
    {
        self.node
    }

    /// The lifecycle axis.
    #[must_use]
    pub fn lifecycle(&self) -> (v: PanelLifecycle)
        ensures
            v == self@.lifecycle,
    {
        self.lifecycle
    }

    /// The presentation axis.
    #[must_use]
    pub fn presentation(&self) -> (v: PresentationMode)
        ensures
            v == self@.presentation,
    {
        self.presentation
    }

    /// The visibility axis.
    #[must_use]
    pub fn visibility(&self) -> (v: PanelVisibility)
        ensures
            v == self@.visibility,
    {
        self.visibility
    }

    /// The focus axis.
    #[must_use]
    pub fn focus(&self) -> (v: PanelFocusState)
        ensures
            v == self@.focus,
    {
        self.focus
    }

    /// The attention axis.
    #[must_use]
    pub fn attention(&self) -> (v: &PanelAttention)
        ensures
            v@ == self@.attention,
    {
        &self.attention
    }

    /// The interaction axis.
    #[must_use]
    pub fn interaction(&self) -> (v: PanelInteraction)
        ensures
            v == self@.interaction,
    {
        self.interaction
    }

    /// The activity axis.
    #[must_use]
    pub fn activity(&self) -> (v: PanelActivity)
        ensures
            v == self@.activity,
    {
        self.activity
    }

    /// Steps the lifecycle axis.
    pub fn set_lifecycle(&mut self, to: PanelLifecycle) -> (r: Result<(), PanelStateError>)
        ensures
            match old(self)@.step_fault(to) {
                Some(fault) => r == Err::<(), PanelStateError>(fault) && final(self)@ == old(self)@,
                None => r is Ok && final(self)@ == (Axes { lifecycle: to, ..old(self)@ }),
            },
    {
        if self.lifecycle == PanelLifecycle::Disposed {
            return Err(PanelStateError::AlreadyDisposed);
        }
        if PanelLifecycle::can_transition(self.lifecycle, to) {
            self.lifecycle = to;
            Ok(())
        } else {
            Err(PanelStateError::IllegalTransition { from: self.lifecycle, to })
        }
    }

    /// Sets the presentation axis.
    pub fn set_presentation(&mut self, mode: PresentationMode)
        ensures
            final(self)@ == (Axes { presentation: mode, ..old(self)@ }),
    {
        self.presentation = mode;
    }

    /// Sets the visibility axis.
    pub fn set_visibility(&mut self, visibility: PanelVisibility)
        ensures
            final(self)@ == (Axes { visibility, ..old(self)@ }),
    {
        self.visibility = visibility;
    }

    /// Sets the attention axis.
    pub fn set_attention(&mut self, attention: PanelAttention)
        ensures
            final(self)@ == (Axes { attention: attention@, ..old(self)@ }),
    {
        self.attention = attention;
    }

    /// Sets the interaction axis.
    pub fn set_interaction(&mut self, interaction: PanelInteraction)
        ensures
            final(self)@ == (Axes { interaction, ..old(self)@ }),
    {
        self.interaction = interaction;
    }

    /// Sets the activity axis.
    pub fn set_activity(&mut self, activity: PanelActivity)
        ensures
            final(self)@ == (Axes { activity, ..old(self)@ }),
    {
        self.activity = activity;
    }

    /// Focuses a mounted panel, lifecycle and focus axis together.
    pub fn focus_panel(&mut self) -> (r: Result<(), PanelStateError>)
        ensures
            if old(self)@.lifecycle is Mounted || old(self)@.lifecycle is Focused {
                r is Ok && final(self)@ == (Axes {
                    lifecycle: PanelLifecycle::Focused,
                    focus: PanelFocusState::Focused,
                    ..old(self)@
                })
            } else {
                r == Err::<(), PanelStateError>(
                    PanelStateError::IllegalTransition {
                        from: old(self)@.lifecycle,
                        to: PanelLifecycle::Focused,
                    },
                ) && final(self)@ == old(self)@
            },
    {
        if self.lifecycle == PanelLifecycle::Mounted {
            match self.set_lifecycle(PanelLifecycle::Focused) {
                Ok(_) => {},
                Err(e) => return Err(e),
            }
        } else if self.lifecycle != PanelLifecycle::Focused {
            return Err(
                PanelStateError::IllegalTransition {
                    from: self.lifecycle,
                    to: PanelLifecycle::Focused,
                },
            );
        }
        self.focus = PanelFocusState::Focused;
        Ok(())
    }

    /// Takes the focus away; a focused lifecycle goes back to mounted.
    pub fn unfocus_panel(&mut self) -> (r: Result<(), PanelStateError>)
        ensures
            r is Ok,
            final(self)@ == (Axes {
                lifecycle: if old(self)@.lifecycle is Focused {
                    PanelLifecycle::Mounted
                } else {
                    old(self)@.lifecycle
                },
                focus: PanelFocusState::Unfocused,
                ..old(self)@
            }),
    {
        if self.lifecycle == PanelLifecycle::Focused {
            match self.set_lifecycle(PanelLifecycle::Mounted) {
                Ok(_) => {},
                Err(e) => return Err(e),
            }
        }
        self.focus = PanelFocusState::Unfocused;
        Ok(())
    }

    /// Closes the panel: hidden, unfocused and idle. Attention survives and
    /// the plugin stays loaded.
    pub fn close(&mut self) -> (r: Result<CloseOutcome, PanelStateError>)
        ensures
            if old(self)@.lifecycle is Disposed {
                r == Err::<CloseOutcome, PanelStateError>(PanelStateError::AlreadyDisposed)
                    && final(self)@ == old(self)@
            } else {
                r == Ok::<CloseOutcome, PanelStateError>(
                    CloseOutcome { plugin_retained: true, reopenable: true },
                ) && final(self)@ == old(self)@.closed()
            },
    {
        if self.lifecycle == PanelLifecycle::Disposed {
            return Err(PanelStateError::AlreadyDisposed);
        }
        self.lifecycle = PanelLifecycle::Closed;
        self.visibility = PanelVisibility::Hidden;
        self.focus = PanelFocusState::Unfocused;
        self.interaction = PanelInteraction::Idle;
        Ok(CloseOutcome { plugin_retained: true, reopenable: true })
    }

    /// Brings a panel back to mounted and visible.
    pub fn reopen(&mut self) -> (r: Result<(), PanelStateError>)
        ensures
            match old(self)@.step_fault(PanelLifecycle::Mounted) {
                Some(fault) => r == Err::<(), PanelStateError>(fault) && final(self)@ == old(self)@,
                None => r is Ok && final(self)@ == (Axes {
                    lifecycle: PanelLifecycle::Mounted,
                    visibility: PanelVisibility::Visible,
                    ..old(self)@
                }),
            },
    {
        match self.set_lifecycle(PanelLifecycle::Mounted) {
            Ok(_) => {},
            Err(e) => return Err(e),
        }
        self.visibility = PanelVisibility::Visible;
        Ok(())
    }
}

impl Clone for SevenPanelState {
    fn clone(&self) -> (s: Self)
        ensures
            s@ == self@,
    {
        Self {
            panel: self.panel,
            node: self.node,
            lifecycle: self.lifecycle,
            presentation: self.presentation,
            visibility: self.visibility,
            focus: self.focus,
            attention: self.attention.clone(),
            interaction: self.interaction,
            activity: self.activity,
        }
    }
}

/// A closed panel can always be opened again, and closing twice is closing
/// once. Closing never disposes, and it keeps presentation, attention and
/// activity.
pub proof fn closing_parks_the_panel(a: Axes)
    ensures
        a.closed().step_fault(PanelLifecycle::Mounted) is None,
        a.closed().closed() == a.closed(),
        !(a.closed().lifecycle is Disposed),
        a.closed().presentation == a.presentation,
        a.closed().attention == a.attention,
        a.closed().activity == a.activity,
{
}

/// The steps of the lifecycle: a panel stays where it is or goes on from declared
/// to created to mounted; a mounted one may be focused, suspended or disposed of;
/// a focused one mounted or suspended; a suspended or closed one mounted again or
/// disposed of. No step leads to closed, which only closing does.
pub proof fn lifecycles_step_forward(from: PanelLifecycle, to: PanelLifecycle)
    requires
        from != to,
    ensures
        from is Declared ==> (from.may_become(to) <==> to is Created),
        from is Created ==> (from.may_become(to) <==> to is Mounted),
        from is Mounted ==> (from.may_become(to) <==> to is Focused || to is Suspended || to
            is Disposed),
        from is Focused ==> (from.may_become(to) <==> to is Mounted || to is Suspended),
        from is Suspended ==> (from.may_become(to) <==> to is Mounted || to is Disposed),
        from is Closed ==> (from.may_become(to) <==> to is Mounted || to is Disposed),
        from is Disposed ==> !from.may_become(to),
        !(from is Closed) ==> !from.may_become(PanelLifecycle::Closed),
{
}

/// A step is refused to a disposed panel, whatever it is, and else exactly when
/// the lifecycle does not allow it, with both ends named.
pub proof fn refused_steps_name_their_ends(a: Axes, to: PanelLifecycle)
    ensures
        a.lifecycle is Disposed ==> a.step_fault(to) == Some(PanelStateError::AlreadyDisposed),
        !(a.lifecycle is Disposed) && (a.lifecycle == to || a.lifecycle.may_become(to))
            ==> a.step_fault(to) is None,
        !(a.lifecycle is Disposed) && a.lifecycle != to && !a.lifecycle.may_become(to)
            ==> a.step_fault(to) == Some(
            PanelStateError::IllegalTransition { from: a.lifecycle, to },
        ),
{
}

/// A new panel is declared, tiled, hidden, unfocused, quiet, idle and suspended.
/// Closing hides a panel, takes its focus and its interaction and keeps the rest.
pub proof fn panels_start_and_close_quietly(panel: PanelId, node: UiNodeId, a: Axes)
    ensures
        ({
            let f = Axes::fresh(panel, node);
            &&& f.panel == panel && f.node == node
            &&& f.lifecycle is Declared && f.visibility is Hidden && f.focus is Unfocused
            &&& f.presentation is Tiled && f.attention is Quiet
            &&& f.interaction is Idle && f.activity is Suspended
        }),
        ({
            let c = a.closed();
            &&& c.panel == a.panel && c.node == a.node
            &&& c.lifecycle is Closed && c.visibility is Hidden && c.focus is Unfocused
            &&& c.interaction is Idle
            &&& c.presentation == a.presentation && c.attention == a.attention
            &&& c.activity == a.activity
        }),
{
}

/// The words that name a lifecycle.
pub proof fn lifecycles_are_named(s: Seq<char>)
    ensures
        PanelLifecycle::named(s) == Some(PanelLifecycle::Declared) <==> s == "declared"@,
        PanelLifecycle::named(s) == Some(PanelLifecycle::Created) <==> s == "created"@,
        PanelLifecycle::named(s) == Some(PanelLifecycle::Mounted) <==> s == "mounted"@,
        PanelLifecycle::named(s) == Some(PanelLifecycle::Focused) <==> s == "focused"@,
        PanelLifecycle::named(s) == Some(PanelLifecycle::Suspended) <==> s == "suspended"@,
        PanelLifecycle::named(s) == Some(PanelLifecycle::Closed) <==> s == "closed"@,
        PanelLifecycle::named(s) == Some(PanelLifecycle::Disposed) <==> s == "disposed"@,
{
    panel_lifecycle_round_trips(PanelLifecycle::Declared, s);
    panel_lifecycle_round_trips(PanelLifecycle::Created, s);
    panel_lifecycle_round_trips(PanelLifecycle::Mounted, s);
    panel_lifecycle_round_trips(PanelLifecycle::Focused, s);
    panel_lifecycle_round_trips(PanelLifecycle::Suspended, s);
    panel_lifecycle_round_trips(PanelLifecycle::Closed, s);
    panel_lifecycle_round_trips(PanelLifecycle::Disposed, s);
}

/// The words that name a visibility.
pub proof fn visibilities_are_named(s: Seq<char>)
    ensures
        PanelVisibility::named(s) == Some(PanelVisibility::Visible) <==> s == "visible"@,
        PanelVisibility::named(s) == Some(PanelVisibility::Hidden) <==> s == "hidden"@,
        PanelVisibility::named(s) == Some(PanelVisibility::Occluded) <==> s == "occluded"@,
        PanelVisibility::named(s) == Some(PanelVisibility::Minimized) <==> s == "minimized"@,
{
    panel_visibility_round_trips(PanelVisibility::Visible, s);
    panel_visibility_round_trips(PanelVisibility::Hidden, s);
    panel_visibility_round_trips(PanelVisibility::Occluded, s);
    panel_visibility_round_trips(PanelVisibility::Minimized, s);
}

/// The words that name a focus.
pub proof fn focus_states_are_named(s: Seq<char>)
    ensures
        PanelFocusState::named(s) == Some(PanelFocusState::Focused) <==> s == "focused"@,
        PanelFocusState::named(s) == Some(PanelFocusState::Unfocused) <==> s == "unfocused"@,
{
    panel_focus_state_round_trips(PanelFocusState::Focused, s);
    panel_focus_state_round_trips(PanelFocusState::Unfocused, s);
}

/// The words that name an interaction.
pub proof fn interactions_are_named(s: Seq<char>)
    ensures
        PanelInteraction::named(s) == Some(PanelInteraction::Idle) <==> s == "idle"@,
        PanelInteraction::named(s) == Some(PanelInteraction::Hovered) <==> s == "hovered"@,
        PanelInteraction::named(s) == Some(PanelInteraction::Pressed) <==> s == "pressed"@,
        PanelInteraction::named(s) == Some(PanelInteraction::Dragging) <==> s == "dragging"@,
        PanelInteraction::named(s) == Some(PanelInteraction::Typing) <==> s == "typing"@,
{
    panel_interaction_round_trips(PanelInteraction::Idle, s);
    panel_interaction_round_trips(PanelInteraction::Hovered, s);
    panel_interaction_round_trips(PanelInteraction::Pressed, s);
    panel_interaction_round_trips(PanelInteraction::Dragging, s);
    panel_interaction_round_trips(PanelInteraction::Typing, s);
}

/// The words that name an activity.
pub proof fn activities_are_named(s: Seq<char>)
    ensures
        PanelActivity::named(s) == Some(PanelActivity::Active) <==> s == "active"@,
        PanelActivity::named(s) == Some(PanelActivity::Idle) <==> s == "idle"@,
        PanelActivity::named(s) == Some(PanelActivity::Suspended) <==> s == "suspended"@,
        PanelActivity::named(s) == Some(PanelActivity::Stale) <==> s == "stale"@,
{
    panel_activity_round_trips(PanelActivity::Active, s);
    panel_activity_round_trips(PanelActivity::Idle, s);
    panel_activity_round_trips(PanelActivity::Suspended, s);
    panel_activity_round_trips(PanelActivity::Stale, s);
}

} // verus!
