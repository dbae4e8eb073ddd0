//! Motion: bounded animation recipes, the scopes they are configured for, and
//! the value that an animation moves. Which position lies between two others is
//! computed by the caller; here is decided when it applies.

use crate::float32;
use crate::float32::Float32;
use crate::text;
use vstd::prelude::*;

verus! {

/// Longest duration in milliseconds.
pub const MAX_MOTION_DURATION_MS: u16 = 2000;

/// Refusal of a recipe.
#[derive(Debug, Clone, Copy, PartialEq, Eq, Structural, Hash)]
pub enum MotionError {
    /// The duration is too long.
    DurationTooLong {
        /// The duration.
        found: u16,
        /// The bound.
        cap: u16,
    },
}

impl MotionError {
    /// The message of the error.
    pub open spec fn spelled(self) -> Seq<char> {
        match self {
            MotionError::DurationTooLong { found, cap } => "motion duration too long: "@
                + text::decimal(found as nat) + "ms exceeds cap "@ + text::decimal(cap as nat)
                + "ms"@,
        }
    }

    /// Spells the error.
    #[must_use]
    pub fn text(&self) -> (out: String)
        ensures
            out@ == self.spelled(),
    {
        match self {
            Self::DurationTooLong { found, cap } => text::tagged_numbers(
                "motion duration too long: ",
                *found as u64,
                "ms exceeds cap ",
                *cap as u64,
                "ms",
            ),
        }
    }
}

/// Shape of a motion over time.
#[derive(Debug, Clone, Copy, PartialEq, Eq, Structural, Hash)]
pub enum MotionCurve {
    /// A jump.
    Instant,
    /// Constant speed.
    Linear,
    /// Fast start, slow end.
    EaseOut,
    /// Slow start and end.
    EaseInOut,
}

impl MotionCurve {
    /// The name of the curve.
    pub open spec fn spelled(self) -> Seq<char> {
        match self {
            MotionCurve::Instant => "instant"@,
            MotionCurve::Linear => "linear"@,
            MotionCurve::EaseOut => "ease-out"@,
            MotionCurve::EaseInOut => "ease-in-out"@,
        }
    }

    /// The name of the curve.
    #[must_use]
    pub fn as_str(self) -> (name: &'static str)
        ensures
            name@ == self.spelled(),
    {
        match self {
            Self::Instant => "instant",
            Self::Linear => "linear",
            Self::EaseOut => "ease-out",
            Self::EaseInOut => "ease-in-out",
        }
    }
}

impl Default for MotionCurve {
    fn default() -> (curve: Self)
        ensures
            curve == MotionCurve::EaseOut,
    {
        Self::EaseOut
    }
}

/// A recipe: how long, and along which curve.
#[derive(Debug, Clone, Copy, PartialEq, Eq, Structural, Hash)]
pub struct MotionSpec {
    duration_ms: u16,
    curve: MotionCurve,
}

impl MotionSpec {
    /// The duration.
    pub closed spec fn millis(self) -> u16 {
        self.duration_ms
    }

    /// The curve.
    pub closed spec fn shape(self) -> MotionCurve {
        self.curve
    }

    /// Whether the recipe animates nothing.
    pub open spec fn jumps(self) -> bool {
        self.millis() == 0 || self.shape() == MotionCurve::Instant
    }

    /// The recipe that jumps.
    pub closed spec fn jump() -> MotionSpec {
        MotionSpec { duration_ms: 0, curve: MotionCurve::Instant }
    }

    /// The recipe that jumps: no duration, the instant curve.
    #[must_use]
    pub fn instant() -> (spec: Self)
        ensures
            spec == MotionSpec::jump(),
            spec.millis() == 0,
            spec.shape() == MotionCurve::Instant,
    {
        Self { duration_ms: 0, curve: MotionCurve::Instant }
    }

    /// Creates a recipe.
    pub fn new(duration_ms: u16, curve: MotionCurve) -> (r: Result<Self, MotionError>)
        ensures
            match r {
                Ok(spec) => duration_ms <= MAX_MOTION_DURATION_MS && spec.millis() == duration_ms
                    && spec.shape() == curve,
                Err(e) => duration_ms > MAX_MOTION_DURATION_MS && e == (
                MotionError::DurationTooLong { found: duration_ms, cap: MAX_MOTION_DURATION_MS }),
            },
    {
        if duration_ms > MAX_MOTION_DURATION_MS {
            return Err(
                MotionError::DurationTooLong { found: duration_ms, cap: MAX_MOTION_DURATION_MS },
            );
        }
        Ok(Self { duration_ms, curve })
    }

    /// The duration in milliseconds.
    #[must_use]
    pub fn duration_ms(self) -> (ms: u16)
        ensures
            ms == self.millis(),
    {
        self.duration_ms
    }

    /// The curve.
    #[must_use]
    pub fn curve(self) -> (curve: MotionCurve)
        ensures
            curve == self.shape(),
    {
        self.curve
    }

    /// Whether the recipe animates nothing.
    #[must_use]
    pub fn is_instant(self) -> (instant: bool)
        ensures
            instant == self.jumps(),
    {
        self.duration_ms == 0 || self.curve == MotionCurve::Instant
    }
}

impl Default for MotionSpec {
    fn default() -> (spec: Self)
        ensures
            spec.millis() == 150,
            spec.shape() == MotionCurve::EaseOut,
    {
        Self { duration_ms: 150, curve: MotionCurve::EaseOut }
    }
}

/// What a recipe can be configured for.
#[derive(Debug, Clone, Copy, PartialEq, Eq, Structural, Hash, PartialOrd, Ord)]
pub enum MotionScope {
    /// Everything.
    Default,
    /// Panels.
    Panel,
    /// Opening a panel.
    Open,
    /// Moving a panel.
    Move,
    /// Closing a panel.
    Close,
}

impl MotionScope {
    /// The name of the scope.
    pub open spec fn spelled(self) -> Seq<char> {
        match self {
            MotionScope::Default => "motion.default"@,
            MotionScope::Panel => "panel"@,
            MotionScope::Open => "panel.open"@,
            MotionScope::Move => "panel.move"@,
            MotionScope::Close => "panel.close"@,
        }
    }

    /// The name of the scope.
    #[must_use]
    pub fn as_str(self) -> (name: &'static str)
        ensures
            name@ == self.spelled(),
    {
        match self {
            Self::Default => "motion.default",
            Self::Panel => "panel",
            Self::Open => "panel.open",
            Self::Move => "panel.move",
            Self::Close => "panel.close",
        }
    }

    /// The next wider scope.
    pub open spec fn parent(self) -> Option<MotionScope> {
        match self {
            MotionScope::Default => None,
            MotionScope::Panel => Some(MotionScope::Default),
            MotionScope::Open => Some(MotionScope::Panel),
            MotionScope::Move => Some(MotionScope::Panel),
            MotionScope::Close => Some(MotionScope::Panel),
        }
    }
}

/// The recipes of the scopes.
#[derive(Debug, Clone, Copy, PartialEq, Eq, Hash)]
pub struct MotionConfig {
    default: MotionSpec,
    panel: Option<MotionSpec>,
    open: Option<MotionSpec>,
    move_spec: Option<MotionSpec>,
    close: Option<MotionSpec>,
    reduced_motion: bool,
}

impl MotionConfig {
    /// The recipe that a scope has of its own.
    pub closed spec fn own(self, scope: MotionScope) -> Option<MotionSpec> {
        match scope {
            MotionScope::Default => Some(self.default),
            MotionScope::Panel => self.panel,
            MotionScope::Open => self.open,
            MotionScope::Move => self.move_spec,
            MotionScope::Close => self.close,
        }
    }

    /// Whether motion is reduced.
    pub closed spec fn is_reduced(self) -> bool {
        self.reduced_motion
    }

    /// `self` is `before` with another recipe for one scope.
    pub open spec fn sets(self, before: Self, scope: MotionScope, spec: MotionSpec) -> bool {
        &&& forall|s: MotionScope| #[trigger]
            self.own(s) == if s == scope {
                Some(spec)
            } else {
                before.own(s)
            }
        &&& self.is_reduced() == before.is_reduced()
    }

    /// The recipe of a scope: its own, or that of the next wider scope that has
    /// one.
    pub open spec fn inherited(self, scope: MotionScope) -> Option<MotionSpec> {
        if self.own(scope) is Some {
            self.own(scope)
        } else if scope != MotionScope::Panel && self.own(MotionScope::Panel) is Some {
            self.own(MotionScope::Panel)
        } else {
            self.own(MotionScope::Default)
        }
    }

    /// Creates a configuration with a recipe for everything.
    #[must_use]
    pub fn new(default: MotionSpec) -> (config: Self)
        ensures
            forall|s: MotionScope| #[trigger]
                config.own(s) == if s == MotionScope::Default {
                    Some(default)
                } else {
                    None
                },
            !config.is_reduced(),
    {
        Self {
            default,
            panel: None,
            open: None,
            move_spec: None,
            close: None,
            reduced_motion: false,
        }
    }

    /// Sets the recipe of panels.
    #[must_use]
    pub fn with_panel(self, spec: MotionSpec) -> (config: Self)
        ensures
            config.sets(self, MotionScope::Panel, spec),
    {
        Self { panel: Some(spec), ..self }
    }

    /// Sets the recipe of opening.
    #[must_use]
    pub fn with_open(self, spec: MotionSpec) -> (config: Self)
        ensures
            config.sets(self, MotionScope::Open, spec),
    {
        Self { open: Some(spec), ..self }
    }

    /// Sets the recipe of moving.
    #[must_use]
    pub fn with_move(self, spec: MotionSpec) -> (config: Self)
        ensures
            config.sets(self, MotionScope::Move, spec),
    {
        Self { move_spec: Some(spec), ..self }
    }

    /// Sets the recipe of closing.
    #[must_use]
    pub fn with_close(self, spec: MotionSpec) -> (config: Self)
        ensures
            config.sets(self, MotionScope::Close, spec),
    {
        Self { close: Some(spec), ..self }
    }

    /// Sets whether motion is reduced.
    #[must_use]
    pub fn with_reduced_motion(self, reduced: bool) -> (config: Self)
        ensures
            forall|s: MotionScope| #[trigger] config.own(s) == self.own(s),
            config.is_reduced() == reduced,
    {
        Self { reduced_motion: reduced, ..self }
    }

    /// Whether motion is reduced.
    #[must_use]
    pub fn reduced_motion(self) -> (reduced: bool)
        ensures
            reduced == self.is_reduced(),
    {
        self.reduced_motion
    }

    /// The recipe of a scope; reduced motion makes every scope jump.
    #[must_use]
    pub fn resolve(self, scope: MotionScope) -> (spec: MotionSpec)
        ensures
            if self.is_reduced() {
                spec == MotionSpec::jump()
            } else {
                Some(spec) == self.inherited(scope)
            },
    {
        if self.reduced_motion {
            return MotionSpec::instant();
        }
        let own = match scope {
            MotionScope::Default => Some(self.default),
            MotionScope::Panel => self.panel,
            MotionScope::Open => self.open,
            MotionScope::Move => self.move_spec,
            MotionScope::Close => self.close,
        };
        if let Some(spec) = own {
            return spec;
        }
        match self.panel {
            Some(spec) => spec,
            None => self.default,
        }
    }
}

impl Default for MotionConfig {
    fn default() -> (config: Self)
        ensures
            config.own(MotionScope::Default) is Some,
            config.own(MotionScope::Default)->0.millis() == 150,
            config.own(MotionScope::Default)->0.shape() == MotionCurve::EaseOut,
            forall|s: MotionScope|
                s != MotionScope::Default ==> #[trigger] config.own(s) is None,
            !config.is_reduced(),
    {
        Self::new(MotionSpec::default())
    }
}

/// A scope without a recipe of its own moves like the next wider one, and the
/// widest scope always has one.
pub proof fn scopes_fall_through(config: MotionConfig, scope: MotionScope)
    ensures
        config.own(MotionScope::Default) is Some,
        config.own(scope) is Some ==> config.inherited(scope) == config.own(scope),
        config.own(scope) is None && scope.parent() is Some ==> config.inherited(scope)
            == config.inherited(scope.parent()->0),
        config.inherited(scope) is Some,
{
}

/// The recipe that jumps animates nothing, so reduced motion animates nothing.
pub proof fn the_jump_jumps()
    ensures
        MotionSpec::jump().jumps(),
{
}

/// One or more.
pub open spec fn at_least_one(bits: u32) -> bool {
    !float32::is_nan(bits) && !float32::is_negative(bits) && bits >= 0x3F80_0000
}

/// Above zero, infinity among them.
pub open spec fn above_zero(bits: u32) -> bool {
    !float32::is_nan(bits) && !float32::is_negative(bits) && bits != 0
}

fn one_or_more(f: Float32) -> (yes: bool)
    ensures
        yes == at_least_one(f@),
{
    let bits: u32 = f.to_bits();
    !f.is_nan() && bits < 0x8000_0000 && bits >= 0x3F80_0000
}

/// A moving number: where it is, where it is bound for, and how it moves.
#[derive(Debug, Clone, Copy, PartialEq)]
pub struct MotionValue {
    current: Float32,
    target: Float32,
    spec: MotionSpec,
}

/// What a moving number holds.
pub struct Moving {
    /// Where it is.
    pub current: Float32,
    /// Where it is bound for.
    pub target: Float32,
    /// How it moves.
    pub spec: MotionSpec,
}

impl View for MotionValue {
    type V = Moving;

    closed spec fn view(&self) -> Moving {
        Moving { current: self.current, target: self.target, spec: self.spec }
    }
}

/// At rest.
pub open spec fn settled(m: Moving) -> bool {
    float32::equal_numbers(m.current@, m.target@)
}

/// Moving, so that it has to be stepped.
pub open spec fn wakes(m: Moving) -> bool {
    !settled(m) && !m.spec.jumps()
}

/// The number with another target.
pub open spec fn retargeted(m: Moving, target: Float32) -> Moving {
    Moving {
        current: if m.spec.jumps() {
            target
        } else {
            m.current
        },
        target,
        spec: m.spec,
    }
}

/// The number with another recipe.
pub open spec fn respecified(m: Moving, spec: MotionSpec) -> Moving {
    Moving {
        current: if spec.jumps() {
            m.target
        } else {
            m.current
        },
        target: m.target,
        spec,
    }
}

/// Where the number is after a step to progress `t`: at its target when it
/// jumps or the progress is complete, where it was when there is no progress,
/// and else at the blended position, or at its target when the whole way was
/// blended.
pub open spec fn stepped(m: Moving, t: Float32, amount: Float32, blended: Float32) -> Float32 {
    if m.spec.jumps() {
        m.target
    } else if !above_zero(t@) {
        m.current
    } else if at_least_one(t@) || at_least_one(amount@) {
        m.target
    } else {
        blended
    }
}

impl MotionValue {
    /// Creates a number at rest.
    #[must_use]
    pub fn new(resting: Float32, spec: MotionSpec) -> (value: Self)
        ensures
            value@ == (Moving { current: resting, target: resting, spec }),
    {
        Self { current: resting, target: resting, spec }
    }

    /// Where it is.
    #[must_use]
    pub fn current(self) -> (position: Float32)
        ensures
            position == self@.current,
    {
        self.current
    }

    /// Where it is bound for.
    #[must_use]
    pub fn target(self) -> (position: Float32)
        ensures
            position == self@.target,
    {
        self.target
    }

    /// How it moves.
    #[must_use]
    pub fn spec(self) -> (spec: MotionSpec)
        ensures
            spec == self@.spec,
    {
        self.spec
    }

    /// Sets the target; a number that jumps is there at once.
    pub fn set_target(&mut self, target: Float32)
        ensures
            final(self)@ == retargeted(old(self)@, target),
    {
        self.target = target;
        if self.spec.is_instant() {
            self.current = target;
        }
    }

    /// Sets the recipe; a number that jumps from now on is at its target at
    /// once.
    pub fn set_spec(&mut self, spec: MotionSpec)
        ensures
            final(self)@ == respecified(old(self)@, spec),
    {
        self.spec = spec;
        if self.spec.is_instant() {
            self.current = self.target;
        }
    }

    /// Whether it is at its target.
    #[must_use]
    pub fn is_settled(self) -> (yes: bool)
        ensures
            yes == settled(self@),
    {
        self.current == self.target
    }

    /// Whether it has to be stepped: it is not at its target and does not jump.
    #[must_use]
    pub fn needs_wakeup(self) -> (yes: bool)
        ensures
            yes == wakes(self@),
    {
        !self.is_settled() && !self.spec.is_instant()
    }

    /// Moves to progress `t`, given the amount that the curve has at `t` and
    /// the position that lies so far between the current one and the target.
    /// Returns the new position.
    pub fn step(&mut self, t: Float32, amount: Float32, blended: Float32) -> (position: Float32)
        ensures
            position == stepped(old(self)@, t, amount, blended),
            final(self)@ == (Moving { current: position, ..old(self)@ }),
    {
        if self.spec.is_instant() {
            self.current = self.target;
            return self.current;
        }
        let bits: u32 = t.to_bits();
        if t.is_nan() || bits >= 0x8000_0000 || bits == 0 {
            return self.current;
        }
        if one_or_more(t) || one_or_more(amount) {
            self.current = self.target;
            return self.current;
        }
        self.current = blended;
        self.current
    }
}

/// A number that has arrived sleeps: after a complete step, or a new target for
/// one that jumps, nothing more has to be stepped unless the target is not a
/// number.
pub proof fn arrivals_sleep(
    m: Moving,
    t: Float32,
    amount: Float32,
    blended: Float32,
    target: Float32,
)
    ensures
        at_least_one(t@) && !float32::is_nan(m.target@) ==> !wakes(
            Moving { current: stepped(m, t, amount, blended), ..m },
        ),
        m.spec.jumps() ==> !wakes(retargeted(m, target)),
        m.spec.jumps() && !float32::is_nan(target@) ==> settled(retargeted(m, target)),
{
}

/// Without progress nothing moves, and a step never changes the target.
pub proof fn no_progress_moves_nothing(
    m: Moving,
    t: Float32,
    amount: Float32,
    blended: Float32,
)
    requires
        !m.spec.jumps(),
        !above_zero(t@),
    ensures
        stepped(m, t, amount, blended) == m.current,
{
}

/// A scope without a spec of its own takes that of the panel, and when the panel
/// has none, the default.
pub proof fn panel_scopes_inherit_from_the_panel(config: MotionConfig, scope: MotionScope)
    ensures
        config.inherited(MotionScope::Default) == config.own(MotionScope::Default),
        config.inherited(scope) == (if config.own(scope) is Some {
            config.own(scope)
        } else if scope != MotionScope::Default && config.own(MotionScope::Panel) is Some {
            config.own(MotionScope::Panel)
        } else {
            config.own(MotionScope::Default)
        }),
{
}

/// A motion jumps when it takes no time or its curve is instant; any other wakes
/// until its value equals its target. Zero equals minus zero, and a number that is
/// none equals nothing.
pub proof fn motions_wake_until_they_arrive(m: Moving)
    ensures
        m.spec.jumps() <==> m.spec.millis() == 0 || m.spec.shape() == MotionCurve::Instant,
        ({
            let (c, t) = (m.current@, m.target@);
            let none = |b: u32| 0x7F80_0000 < b < 0x8000_0000 || b > 0xFF80_0000;
            let zero = |b: u32| b == 0 || b == 0x8000_0000;
            let arrived = !none(c) && !none(t) && (c == t || (zero(c) && zero(t)));
            &&& settled(m) <==> arrived
            &&& wakes(m) <==> !arrived && m.spec.millis() > 0 && m.spec.shape()
                != MotionCurve::Instant
        }),
{
}

/// A step goes to the target when the motion jumps or its time or its amount has
/// reached one, stays where it is at no progress, and else takes the blended
/// value. One is `0x3F80_0000`, infinity `0x7F80_0000`.
pub proof fn steps_end_at_the_target(m: Moving, t: Float32, amount: Float32, blended: Float32)
    ensures
        ({
            let one = |b: u32| 0x3F80_0000 <= b <= 0x7F80_0000;
            let moving = 0 < t@ <= 0x7F80_0000;
            let r = stepped(m, t, amount, blended);
            &&& m.spec.jumps() ==> r == m.target
            &&& !m.spec.jumps() && !moving ==> r == m.current
            &&& !m.spec.jumps() && moving && (one(t@) || one(amount@)) ==> r == m.target
            &&& !m.spec.jumps() && moving && !one(t@) && !one(amount@) ==> r == blended
        }),
{
}

/// A new target is reached at once by a jump and approached by any other motion;
/// a new spec likewise sends the value to its target when it jumps.
pub proof fn jumps_land_on_their_target(m: Moving, target: Float32, spec: MotionSpec)
    ensures
        retargeted(m, target).target == target,
        retargeted(m, target).spec == m.spec,
        m.spec.jumps() ==> retargeted(m, target).current == target,
        !m.spec.jumps() ==> retargeted(m, target).current == m.current,
        respecified(m, spec).spec == spec,
        respecified(m, spec).target == m.target,
        spec.jumps() ==> respecified(m, spec).current == m.target,
        !spec.jumps() ==> respecified(m, spec).current == m.current,
{
}

/// Setting the spec of a scope changes that scope alone.
pub proof fn scopes_are_set_one_by_one(
    before: MotionConfig,
    after: MotionConfig,
    scope: MotionScope,
    spec: MotionSpec,
    other: MotionScope,
)
    requires
        after.sets(before, scope, spec),
    ensures
        after.own(scope) == Some(spec),
        after.inherited(scope) == Some(spec),
        other != scope ==> after.own(other) == before.own(other),
        after.is_reduced() == before.is_reduced(),
{
}

} // verus!
