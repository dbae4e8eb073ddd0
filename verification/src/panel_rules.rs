//! Panel rules: typed claims about panels, and which of them wins.

use crate::geometry::Size;
use crate::panel::{PanelId, PanelType};
use crate::presentation::PresentationMode;
use crate::seqs;
use crate::text;
use crate::theme::TokenColor;
use crate::workspace_scene::SceneLayer;
use vstd::prelude::*;
use vstd::string::*;

verus! {

/// Most rules of a set.
pub const MAX_PANEL_RULES: usize = 64;

/// Stable handle of a panel rule.
#[derive(Debug, Clone, Copy, PartialEq, Eq, Structural, Hash, PartialOrd, Ord)]
pub struct RuleId(pub u64);

impl RuleId {
    /// Creates an id from a raw value.
    #[must_use]
    pub fn new(raw: u64) -> (id: Self)
        ensures
            id == RuleId(raw),
    {
        Self(raw)
    }

    /// Returns the raw value.
    #[must_use]
    pub fn get(self) -> (raw: u64)
        ensures
            raw == self.0,
    {
        self.0
    }

    /// The spelling `RuleId(<raw>)`.
    pub open spec fn spelled(self) -> Seq<char> {
        "RuleId("@ + text::decimal(self.0 as nat) + ")"@
    }

    /// Spells the id for messages.
    #[must_use]
    pub fn text(self) -> (out: String)
        ensures
            out@ == self.spelled(),
    {
        text::tagged_number("RuleId(", self.0, ")")
    }
}

/// What a rule is about.
#[derive(Debug, Clone, Copy, PartialEq, Eq, Structural, Hash, PartialOrd, Ord)]
pub enum EffectKind {
    /// Scene layer.
    Placement,
    /// Display mode.
    Presentation,
    /// Minimum size.
    MinSize,
    /// Accent color.
    Accent,
}

impl EffectKind {
    /// The name of the kind.
    pub open spec fn spelled(self) -> Seq<char> {
        match self {
            EffectKind::Placement => "placement"@,
            EffectKind::Presentation => "presentation"@,
            EffectKind::MinSize => "min-size"@,
            EffectKind::Accent => "accent"@,
        }
    }

    /// Canonical lowercase name.
    #[must_use]
    pub fn as_str(self) -> (s: &'static str)
        ensures
            s@ == self.spelled(),
    {
        match self {
            Self::Placement => "placement",
            Self::Presentation => "presentation",
            Self::MinSize => "min-size",
            Self::Accent => "accent",
        }
    }

    /// Spells the kind for messages.
    #[must_use]
    pub fn text(self) -> (out: String)
        ensures
            out@ == self.spelled(),
    {
        self.as_str().to_owned()
    }
}

/// The ids stand in ascending order.
pub open spec fn ascending(ids: Seq<RuleId>) -> bool {
    forall|i: int, j: int| 0 <= i <= j < ids.len() ==> (#[trigger] ids[i]).0 <= (#[trigger] ids[j]).0
}

/// The spellings of ids with commas between them.
pub open spec fn id_list(ids: Seq<RuleId>) -> Seq<char>
    decreases ids.len(),
{
    if ids.len() == 0 {
        Seq::empty()
    } else if ids.len() == 1 {
        ids[0].spelled()
    } else {
        id_list(ids.drop_last()) + ", "@ + ids.last().spelled()
    }
}

/// The kind under contention and the rules that tie.
#[derive(Debug, PartialEq, Eq)]
pub struct RuleDiagnostic {
    /// The contested kind.
    pub kind: EffectKind,
    /// The tied rules in ascending order.
    pub contenders: Vec<RuleId>,
}

impl RuleDiagnostic {
    /// Builds a diagnostic; the contenders are put in ascending order.
    #[must_use]
    pub fn new(kind: EffectKind, contenders: Vec<RuleId>) -> (d: Self)
        ensures
            d.kind == kind,
            ascending(d.contenders@),
            d.contenders@.to_multiset() == contenders@.to_multiset(),
    {
        let mut sorted: Vec<RuleId> = Vec::new();
        let mut i: usize = 0;
        assert(sorted@ =~= contenders@.take(0));
        while i < contenders.len()
            invariant
                0 <= i <= contenders.len(),
                ascending(sorted@),
                sorted@.to_multiset() == contenders@.take(i as int).to_multiset(),
            decreases contenders.len() - i,
        {
            let ghost before = sorted@;
            let id = contenders[i];
            let mut k: usize = sorted.len();
            while k > 0 && sorted[k - 1].0 > id.0
                invariant
                    0 <= k <= sorted.len(),
                    sorted@ == before,
                    forall|m: int| k <= m < before.len() ==> (#[trigger] before[m]).0 > id.0,
                decreases k,
            {
                k = k - 1;
            }
            assert forall|m: int| 0 <= m < k implies (#[trigger] before[m]).0 <= id.0 by {
                assert(before[m].0 <= before[k - 1].0);
            }
            sorted.insert(k, id);
            proof {
                broadcast use vstd::seq_lib::group_to_multiset_ensures;

                assert forall|a: int, b: int| 0 <= a <= b < sorted@.len() implies (
                #[trigger] sorted@[a]).0 <= (#[trigger] sorted@[b]).0 by {
                    let p = if a > k {
                        a - 1
                    } else {
                        a
                    };
                    let q = if b > k {
                        b - 1
                    } else {
                        b
                    };
                    if a != k {
                        assert(sorted@[a] == before[p]);
                    }
                    if b != k {
                        assert(sorted@[b] == before[q]);
                    }
                }
                assert(contenders@.take(i + 1) =~= contenders@.take(i as int).push(id));
                assert(contenders@.take(i + 1).to_multiset() == contenders@.take(
                    i as int,
                ).to_multiset().insert(id));
                assert(sorted@.to_multiset() == before.to_multiset().insert(id));
            }
            i = i + 1;
        }
        assert(contenders@.take(i as int) =~= contenders@);
        Self { kind, contenders: sorted }
    }

    /// The message of the diagnostic.
    pub open spec fn spelled(self) -> Seq<char> {
        "conflict on "@ + self.kind.spelled() + ": rules "@ + id_list(self.contenders@)
    }

    /// Spells the diagnostic.
    #[must_use]
    pub fn text(&self) -> (out: String)
        ensures
            out@ == self.spelled(),
    {
        let ghost head = "conflict on "@ + self.kind.spelled() + ": rules "@;
        let mut out = text::joined3("conflict on ", self.kind.as_str(), ": rules ");
        let mut i: usize = 0;
        assert(head + id_list(self.contenders@.take(0)) =~= head);
        while i < self.contenders.len()
            invariant
                0 <= i <= self.contenders.len(),
                out@ == head + id_list(self.contenders@.take(i as int)),
            decreases self.contenders.len() - i,
        {
            let ghost part = self.contenders@.take(i + 1);
            assert(part.drop_last() =~= self.contenders@.take(i as int));
            if i > 0 {
                out.append(", ");
            }
            out.append(self.contenders[i].text().as_str());
            assert(out@ =~= head + id_list(part));
            i = i + 1;
        }
        assert(self.contenders@.take(i as int) =~= self.contenders@);
        out
    }
}

impl Clone for RuleDiagnostic {
    fn clone(&self) -> (d: Self)
        ensures
            d.kind == self.kind,
            d.contenders@ == self.contenders@,
    {
        let contenders = self.contenders.clone();
        assert(contenders@ =~= self.contenders@);
        Self { kind: self.kind, contenders }
    }
}

/// Failure to admit or resolve a rule.
#[derive(Debug, Clone, PartialEq, Eq)]
pub enum RuleError {
    /// The set is full.
    TooManyRules { cap: usize },
    /// The id is taken.
    DuplicateRule { id: RuleId },
    /// Rules tie.
    Conflict(RuleDiagnostic),
}

impl RuleError {
    /// The message of the error.
    pub open spec fn spelled(self) -> Seq<char> {
        match self {
            RuleError::TooManyRules { cap } => "panel rule set full: cap "@ + text::decimal(
                cap as nat,
            ),
            RuleError::DuplicateRule { id } => "duplicate panel rule id: "@ + id.spelled(),
            RuleError::Conflict(diagnostic) => diagnostic.spelled(),
        }
    }

    /// Spells the error.
    #[must_use]
    pub fn text(&self) -> (out: String)
        ensures
            out@ == self.spelled(),
    {
        match self {
            Self::TooManyRules { cap } => text::ending_number(
                "panel rule set full: cap ",
                *cap as u64,
            ),
            Self::DuplicateRule { id } => text::joined(
                "duplicate panel rule id: ",
                id.text().as_str(),
            ),
            Self::Conflict(diagnostic) => diagnostic.text(),
        }
    }
}

/// Who claims a rule.
#[derive(Debug, Clone, Copy, PartialEq, Eq, Structural, Hash, PartialOrd, Ord)]
pub enum RuleOrigin {
    /// A workspace.
    Workspace,
    /// The user.
    User,
    /// The safety policy.
    Safety,
}

impl RuleOrigin {
    /// Rank of the origin: safety beats user beats workspace.
    pub open spec fn height(self) -> int {
        match self {
            RuleOrigin::Workspace => 0,
            RuleOrigin::User => 1,
            RuleOrigin::Safety => 2,
        }
    }

    /// The name of the origin.
    pub open spec fn spelled(self) -> Seq<char> {
        match self {
            RuleOrigin::Workspace => "workspace"@,
            RuleOrigin::User => "user"@,
            RuleOrigin::Safety => "safety"@,
        }
    }

    /// The origin that a text names.
    pub open spec fn named(s: Seq<char>) -> Option<RuleOrigin> {
        if s == "workspace"@ {
            Some(RuleOrigin::Workspace)
        } else if s == "user"@ {
            Some(RuleOrigin::User)
        } else if s == "safety"@ {
            Some(RuleOrigin::Safety)
        } else {
            None
        }
    }

    /// Priority rank: higher wins.
    #[must_use]
    pub fn rank(self) -> (r: u8)
        ensures
            r == self.height(),
    {
        match self {
            Self::Workspace => 0,
            Self::User => 1,
            Self::Safety => 2,
        }
    }

    /// Canonical lowercase name.
    #[must_use]
    pub fn as_str(self) -> (s: &'static str)
        ensures
            s@ == self.spelled(),
    {
        match self {
            Self::Workspace => "workspace",
            Self::User => "user",
            Self::Safety => "safety",
        }
    }

    /// Parses a canonical name.
    #[must_use]
    pub fn parse(s: &str) -> (o: Option<Self>)
        ensures
            o == RuleOrigin::named(s@),
    {
        if text::same_text(s, "workspace") {
            Some(Self::Workspace)
        } else if text::same_text(s, "user") {
            Some(Self::User)
        } else if text::same_text(s, "safety") {
            Some(Self::Safety)
        } else {
            None
        }
    }

    /// Spells the origin for messages.
    #[must_use]
    pub fn text(self) -> (out: String)
        ensures
            out@ == self.spelled(),
    {
        self.as_str().to_owned()
    }
}

/// Parsing the name of an origin gives the origin back, and only that name
/// does.
pub proof fn origin_names_round_trip(o: RuleOrigin, s: Seq<char>)
    ensures
        RuleOrigin::named(o.spelled()) == Some(o),
        RuleOrigin::named(s) == Some(o) ==> s == o.spelled(),
{
    reveal_strlit("workspace");
    reveal_strlit("user");
    reveal_strlit("safety");
    assert("workspace"@.len() == 9 && "user"@.len() == 4 && "safety"@.len() == 6);
}

/// Which panels a rule covers.
#[derive(Debug, Clone, Copy, PartialEq, Eq, Structural, Hash)]
pub enum RuleSelector {
    /// Every panel.
    AnyPanel,
    /// Panels of one type.
    PanelType(PanelType),
    /// One panel.
    Panel(PanelId),
}

impl RuleSelector {
    /// How narrow the selector is.
    pub open spec fn narrowness(self) -> int {
        match self {
            RuleSelector::AnyPanel => 0,
            RuleSelector::PanelType(_) => 1,
            RuleSelector::Panel(_) => 2,
        }
    }

    /// The selector covers the panel.
    pub open spec fn covers(self, panel: PanelId, panel_type: PanelType) -> bool {
        match self {
            RuleSelector::AnyPanel => true,
            RuleSelector::PanelType(kind) => kind == panel_type,
            RuleSelector::Panel(id) => id == panel,
        }
    }

    /// Specificity rank: higher wins after the origin.
    #[must_use]
    pub fn specificity(self) -> (r: u8)
        ensures
            r == self.narrowness(),
    {
        match self {
            Self::AnyPanel => 0,
            Self::PanelType(_) => 1,
            Self::Panel(_) => 2,
        }
    }

    /// Whether the selector covers the panel.
    #[must_use]
    pub fn matches(self, panel: PanelId, panel_type: PanelType) -> (yes: bool)
        ensures
            yes == self.covers(panel, panel_type),
    {
        match self {
            Self::AnyPanel => true,
            Self::PanelType(kind) => kind == panel_type,
            Self::Panel(id) => id.0 == panel.0,
        }
    }
}

/// The claimed value.
#[derive(Debug, Clone, Copy, PartialEq, Eq, Hash)]
pub enum RuleEffect {
    /// Scene layer.
    Placement(SceneLayer),
    /// Display mode.
    Presentation(PresentationMode),
    /// Minimum size in cells.
    MinSize(Size),
    /// Accent color.
    Accent(TokenColor),
}

impl RuleEffect {
    /// What the effect is about.
    pub open spec fn about(self) -> EffectKind {
        match self {
            RuleEffect::Placement(_) => EffectKind::Placement,
            RuleEffect::Presentation(_) => EffectKind::Presentation,
            RuleEffect::MinSize(_) => EffectKind::MinSize,
            RuleEffect::Accent(_) => EffectKind::Accent,
        }
    }

    /// The kind of the effect.
    #[must_use]
    pub fn kind(self) -> (k: EffectKind)
        ensures
            k == self.about(),
    {
        match self {
            Self::Placement(_) => EffectKind::Placement,
            Self::Presentation(_) => EffectKind::Presentation,
            Self::MinSize(_) => EffectKind::MinSize,
            Self::Accent(_) => EffectKind::Accent,
        }
    }
}

/// One panel rule.
#[derive(Debug, Clone, Copy, PartialEq, Eq, Hash)]
pub struct PanelRule {
    id: RuleId,
    origin: RuleOrigin,
    selector: RuleSelector,
    effect: RuleEffect,
}

impl PanelRule {
    /// The identity of the rule.
    pub closed spec fn key(self) -> RuleId {
        self.id
    }

    /// Who claims it.
    pub closed spec fn claimant(self) -> RuleOrigin {
        self.origin
    }

    /// Which panels it covers.
    pub closed spec fn reach(self) -> RuleSelector {
        self.selector
    }

    /// What it claims.
    pub closed spec fn claim(self) -> RuleEffect {
        self.effect
    }

    /// The strength of the rule: the origin decides, then the selector.
    pub open spec fn strength(self) -> int {
        3 * self.claimant().height() + self.reach().narrowness()
    }

    /// The rule claims this kind for this panel.
    pub open spec fn claims(self, panel: PanelId, panel_type: PanelType, kind: EffectKind) -> bool {
        self.claim().about() == kind && self.reach().covers(panel, panel_type)
    }

    /// Builds a rule.
    #[must_use]
    pub fn new(
        id: RuleId,
        origin: RuleOrigin,
        selector: RuleSelector,
        effect: RuleEffect,
    ) -> (r: Self)
        ensures
            r.key() == id,
            r.claimant() == origin,
            r.reach() == selector,
            r.claim() == effect,
    {
        Self { id, origin, selector, effect }
    }

    /// The identity of the rule.
    #[must_use]
    pub fn id(&self) -> (id: RuleId)
        ensures
            id == self.key(),
    {
        self.id
    }

    /// Who claims it.
    #[must_use]
    pub fn origin(&self) -> (o: RuleOrigin)
        ensures
            o == self.claimant(),
    {
        self.origin
    }

    /// Which panels it covers.
    #[must_use]
    pub fn selector(&self) -> (s: RuleSelector)
        ensures
            s == self.reach(),
    {
        self.selector
    }

    /// What it claims.
    #[must_use]
    pub fn effect(&self) -> (e: RuleEffect)
        ensures
            e == self.claim(),
    {
        self.effect
    }
}

/// Some rule has the id.
pub open spec fn has_rule(rules: Seq<PanelRule>, id: RuleId) -> bool {
    exists|i: int| 0 <= i < rules.len() && (#[trigger] rules[i]).key() == id
}

/// Why a rule is not admitted.
pub open spec fn admission_fault(rules: Seq<PanelRule>, rule: PanelRule) -> Option<RuleError> {
    if rules.len() >= MAX_PANEL_RULES {
        Some(RuleError::TooManyRules { cap: MAX_PANEL_RULES })
    } else if has_rule(rules, rule.key()) {
        Some(RuleError::DuplicateRule { id: rule.key() })
    } else {
        None
    }
}

/// Why the first `n` rules are not all admitted in order.
pub open spec fn list_fault(rules: Seq<PanelRule>, n: int) -> Option<RuleError>
    decreases n,
{
    if n <= 0 {
        None
    } else if list_fault(rules, n - 1) is Some {
        list_fault(rules, n - 1)
    } else {
        admission_fault(rules.take(n - 1), rules[n - 1])
    }
}

/// The greatest strength of a rule that claims the kind for the panel, `-1`
/// when no rule does.
pub open spec fn top_strength(
    rules: Seq<PanelRule>,
    panel: PanelId,
    panel_type: PanelType,
    kind: EffectKind,
) -> int
    decreases rules.len(),
{
    if rules.len() == 0 {
        -1
    } else {
        let before = top_strength(rules.drop_last(), panel, panel_type, kind);
        let last = rules.last();
        if last.claims(panel, panel_type, kind) && last.strength() > before {
            last.strength()
        } else {
            before
        }
    }
}

/// The condition of claiming the kind for the panel with the given strength.
pub open spec fn contends(
    panel: PanelId,
    panel_type: PanelType,
    kind: EffectKind,
    strength: int,
) -> spec_fn(PanelRule) -> bool {
    |r: PanelRule| r.claims(panel, panel_type, kind) && r.strength() == strength
}

/// The strongest rules that claim the kind for the panel.
pub open spec fn contenders(
    rules: Seq<PanelRule>,
    panel: PanelId,
    panel_type: PanelType,
    kind: EffectKind,
) -> Seq<PanelRule> {
    seqs::kept(
        rules,
        contends(panel, panel_type, kind, top_strength(rules, panel, panel_type, kind)),
    )
}

/// The outcome of resolving a kind for a panel: the single strongest rule that
/// claims it, nothing when no rule does, and else a conflict that names every
/// tied rule in ascending order.
pub open spec fn settles(
    rules: Seq<PanelRule>,
    panel: PanelId,
    panel_type: PanelType,
    kind: EffectKind,
    r: Result<Option<PanelRule>, RuleError>,
) -> bool {
    let top = contenders(rules, panel, panel_type, kind);
    match r {
        Ok(None) => top.len() == 0,
        Ok(Some(winner)) => top.len() == 1 && winner == top[0],
        Err(RuleError::Conflict(d)) => top.len() > 1 && d.kind == kind && ascending(
            d.contenders@,
        ) && d.contenders@.to_multiset() == top.map_values(
            |r: PanelRule| r.key(),
        ).to_multiset(),
        Err(_) => false,
    }
}

/// No claiming rule is stronger than the top, and there is a contender exactly
/// when some rule claims the kind for the panel.
pub proof fn contenders_are_strongest(
    rules: Seq<PanelRule>,
    panel: PanelId,
    panel_type: PanelType,
    kind: EffectKind,
)
    ensures
        ({
            let top = top_strength(rules, panel, panel_type, kind);
            &&& forall|i: int|
                0 <= i < rules.len() && (#[trigger] rules[i]).claims(panel, panel_type, kind)
                    ==> rules[i].strength() <= top
            &&& contenders(rules, panel, panel_type, kind).len() > 0 <==> exists|i: int|
                0 <= i < rules.len() && (#[trigger] rules[i]).claims(panel, panel_type, kind)
            &&& forall|i: int|
                0 <= i < contenders(rules, panel, panel_type, kind).len() ==> (
                #[trigger] contenders(rules, panel, panel_type, kind)[i]).claims(
                    panel,
                    panel_type,
                    kind,
                ) && contenders(rules, panel, panel_type, kind)[i].strength() == top && rules.contains(
                    contenders(rules, panel, panel_type, kind)[i],
                )
        }),
{
    let top = top_strength(rules, panel, panel_type, kind);
    let p = contends(panel, panel_type, kind, top);
    lemma_top(rules, panel, panel_type, kind);
    seqs::kept_holds(rules, p);
    let all = contenders(rules, panel, panel_type, kind);
    if exists|i: int| 0 <= i < rules.len() && (#[trigger] rules[i]).claims(panel, panel_type, kind) {
        let k = choose|k: int|
            0 <= k < rules.len() && (#[trigger] rules[k]).claims(panel, panel_type, kind)
                && rules[k].strength() == top;
        assert(rules.contains(rules[k]));
        assert(all.contains(rules[k]));
    }
    if all.len() > 0 {
        assert(rules.contains(all[0]));
        let k = choose|k: int| 0 <= k < rules.len() && rules[k] == all[0];
        assert(rules[k].claims(panel, panel_type, kind));
    }
}

proof fn lemma_top(
    rules: Seq<PanelRule>,
    panel: PanelId,
    panel_type: PanelType,
    kind: EffectKind,
)
    ensures
        ({
            let top = top_strength(rules, panel, panel_type, kind);
            &&& top >= -1
            &&& forall|i: int|
                0 <= i < rules.len() && (#[trigger] rules[i]).claims(panel, panel_type, kind)
                    ==> rules[i].strength() <= top
            &&& top >= 0 ==> exists|k: int|
                0 <= k < rules.len() && (#[trigger] rules[k]).claims(panel, panel_type, kind)
                    && rules[k].strength() == top
        }),
    decreases rules.len(),
{
    if rules.len() > 0 {
        let front = rules.drop_last();
        lemma_top(front, panel, panel_type, kind);
        assert(forall|i: int| 0 <= i < front.len() ==> front[i] == rules[i]);
        let top = top_strength(rules, panel, panel_type, kind);
        let before = top_strength(front, panel, panel_type, kind);
        assert forall|i: int|
            0 <= i < rules.len() && (#[trigger] rules[i]).claims(
                panel,
                panel_type,
                kind,
            ) implies rules[i].strength() <= top by {
            if i < front.len() {
                assert(front[i].claims(panel, panel_type, kind));
            }
        }
        if top == before && top >= 0 {
            let k = choose|k: int|
                0 <= k < front.len() && (#[trigger] front[k]).claims(panel, panel_type, kind)
                    && front[k].strength() == top;
            assert(rules[k].claims(panel, panel_type, kind));
        } else if top >= 0 {
            assert(rules[rules.len() - 1].claims(panel, panel_type, kind));
        }
    }
}

/// Bounded set of rules with distinct ids.
#[derive(Debug, PartialEq, Eq)]
pub struct PanelRuleSet {
    rules: Vec<PanelRule>,
}

impl View for PanelRuleSet {
    type V = Seq<PanelRule>;

    closed spec fn view(&self) -> Seq<PanelRule> {
        self.rules@
    }
}

impl PanelRuleSet {
    /// The set keeps its bound and no two rules share an id.
    pub open spec fn wf(self) -> bool {
        &&& self@.len() <= MAX_PANEL_RULES
        &&& forall|i: int, j: int|
            0 <= i < j < self@.len() ==> (#[trigger] self@[i]).key() != (#[trigger] self@[j]).key()
    }

    /// Builds an empty set.
    #[must_use]
    pub fn new() -> (s: Self)
        ensures
            s.wf(),
            s@ == Seq::<PanelRule>::empty(),
    {
        Self { rules: Vec::new() }
    }

    /// Builds a set from a list; the first rule that is not admitted fails.
    pub fn from_rules(rules: Vec<PanelRule>) -> (r: Result<Self, RuleError>)
        ensures
            match list_fault(rules@, rules@.len() as int) {
                Some(fault) => r == Err::<PanelRuleSet, RuleError>(fault),
                None => r matches Ok(s) && s.wf() && s@ == rules@,
            },
    {
        let mut set = Self::new();
        let mut i: usize = 0;
        assert(rules@.take(0) =~= set@);
        while i < rules.len()
            invariant
                0 <= i <= rules.len(),
                set.wf(),
                set@ == rules@.take(i as int),
                list_fault(rules@, i as int) is None,
            decreases rules.len() - i,
        {
            assert(rules@.take(i + 1) =~= rules@.take(i as int).push(rules@[i as int]));
            if let Err(e) = set.add(rules[i]) {
                proof {
                    lemma_list_fault(rules@, i + 1, rules@.len() as int);
                }
                return Err(e);
            }
            i = i + 1;
        }
        assert(rules@.take(i as int) =~= rules@);
        Ok(set)
    }

    /// Admits a rule; a full set and a taken id are refused and change
    /// nothing.
    pub fn add(&mut self, rule: PanelRule) -> (r: Result<(), RuleError>)
        requires
            old(self).wf(),
        ensures
            final(self).wf(),
            match admission_fault(old(self)@, rule) {
                Some(fault) => r == Err::<(), RuleError>(fault) && final(self)@ == old(self)@,
                None => r is Ok && final(self)@ == old(self)@.push(rule),
            },
    {
        if self.rules.len() >= MAX_PANEL_RULES {
            return Err(RuleError::TooManyRules { cap: MAX_PANEL_RULES });
        }
        let mut i: usize = 0;
        while i < self.rules.len()
            invariant
                0 <= i <= self.rules.len(),
                self.rules.len() < MAX_PANEL_RULES,
                *self == *old(self),
                self.wf(),
                forall|j: int| 0 <= j < i ==> (#[trigger] self@[j]).key() != rule.key(),
            decreases self.rules.len() - i,
        {
            if self.rules[i].id == rule.id {
                assert(self@[i as int].key() == rule.key());
                return Err(RuleError::DuplicateRule { id: rule.id });
            }
            i = i + 1;
        }
        self.rules.push(rule);
        Ok(())
    }

    /// The rules in order of admission.
    #[must_use]
    pub fn rules(&self) -> (s: &[PanelRule])
        ensures
            s@ == self@,
    {
        self.rules.as_slice()
    }

    /// Resolves one kind for one panel: the strongest claiming rule, nothing
    /// when no rule claims it, and a conflict when the strongest ones tie.
    pub fn resolve(&self, panel: PanelId, panel_type: PanelType, kind: EffectKind) -> (r: Result<
        Option<PanelRule>,
        RuleError,
    >)
        ensures
            settles(self@, panel, panel_type, kind, r),
    {
        let strength: Option<u8> = self.strongest(panel, panel_type, kind);
        proof {
            lemma_top(self@, panel, panel_type, kind);
            contenders_are_strongest(self@, panel, panel_type, kind);
        }
        let top: u8 = match strength {
            Some(s) => s,
            None => {
                return Ok(None);
            },
        };
        let ghost p = contends(panel, panel_type, kind, top as int);
        let mut best: Option<PanelRule> = None;
        let mut tied: Vec<RuleId> = Vec::new();
        let mut i: usize = 0;
        assert(tied@ =~= seqs::kept(self@.take(0), p).map_values(|r: PanelRule| r.key()));
        while i < self.rules.len()
            invariant
                0 <= i <= self.rules.len(),
                p == contends(panel, panel_type, kind, top as int),
                tied@ == seqs::kept(self@.take(i as int), p).map_values(|r: PanelRule| r.key()),
                match best {
                    Some(b) => tied@.len() > 0 && b == seqs::kept(self@.take(i as int), p)[0],
                    None => tied@.len() == 0,
                },
            decreases self.rules.len() - i,
        {
            let rule = self.rules[i];
            let ghost part = self@.take(i + 1);
            let ghost before = seqs::kept(self@.take(i as int), p);
            assert(part.drop_last() =~= self@.take(i as int));
            assert(part.last() == rule);
            if rule.effect.kind() == kind && rule.selector.matches(panel, panel_type)
                && strength_of(&rule) == top {
                assert(seqs::kept(part, p) == before.push(rule));
                if best.is_none() {
                    best = Some(rule);
                }
                tied.push(rule.id);
                assert(tied@ =~= before.push(rule).map_values(|r: PanelRule| r.key()));
            } else {
                assert(seqs::kept(part, p) == before);
            }
            i = i + 1;
        }
        assert(self@.take(i as int) =~= self@);
        if tied.len() > 1 {
            return Err(RuleError::Conflict(RuleDiagnostic::new(kind, tied)));
        }
        Ok(best)
    }

    fn strongest(&self, panel: PanelId, panel_type: PanelType, kind: EffectKind) -> (s: Option<u8>)
        ensures
            match s {
                Some(v) => v == top_strength(self@, panel, panel_type, kind),
                None => top_strength(self@, panel, panel_type, kind) == -1,
            },
    {
        let mut top: Option<u8> = None;
        let mut i: usize = 0;
        while i < self.rules.len()
            invariant
                0 <= i <= self.rules.len(),
                match top {
                    Some(v) => v == top_strength(self@.take(i as int), panel, panel_type, kind),
                    None => top_strength(self@.take(i as int), panel, panel_type, kind) == -1,
                },
            decreases self.rules.len() - i,
        {
            let rule = self.rules[i];
            assert(self@.take(i + 1).drop_last() =~= self@.take(i as int));
            assert(self@.take(i + 1).last() == rule);
            if rule.effect.kind() == kind && rule.selector.matches(panel, panel_type) {
                let s: u8 = strength_of(&rule);
                let stronger: bool = match top {
                    Some(v) => s > v,
                    None => true,
                };
                if stronger {
                    top = Some(s);
                }
            }
            i = i + 1;
        }
        assert(self@.take(i as int) =~= self@);
        top
    }
}

fn strength_of(rule: &PanelRule) -> (s: u8)
    ensures
        s == rule.strength(),
{
    3 * rule.origin.rank() + rule.selector.specificity()
}

proof fn lemma_list_fault(rules: Seq<PanelRule>, k: int, n: int)
    requires
        0 <= k <= n,
        list_fault(rules, k) is Some,
    ensures
        list_fault(rules, n) == list_fault(rules, k),
    decreases n,
{
    if k < n {
        lemma_list_fault(rules, k, n - 1);
    }
}

impl Default for PanelRuleSet {
    fn default() -> (s: Self)
        ensures
            s.wf(),
            s@ == Seq::<PanelRule>::empty(),
    {
        Self::new()
    }
}

impl Clone for PanelRuleSet {
    fn clone(&self) -> (s: Self)
        ensures
            s@ == self@,
    {
        let rules = self.rules.clone();
        assert(rules@ =~= self.rules@);
        Self { rules }
    }
}

/// A rule wins over every other claim: a higher origin beats a lower one
/// whatever the selectors, and a narrower selector decides within one origin.
pub proof fn winner_beats_every_claim(
    rules: Seq<PanelRule>,
    panel: PanelId,
    panel_type: PanelType,
    kind: EffectKind,
    i: int,
)
    requires
        contenders(rules, panel, panel_type, kind).len() == 1,
        0 <= i < rules.len(),
        rules[i].claims(panel, panel_type, kind),
        rules[i] != contenders(rules, panel, panel_type, kind)[0],
    ensures
        ({
            let winner = contenders(rules, panel, panel_type, kind)[0];
            ||| winner.claimant().height() > rules[i].claimant().height()
            ||| winner.claimant() == rules[i].claimant() && winner.reach().narrowness()
                > rules[i].reach().narrowness()
        }),
{
    let all = contenders(rules, panel, panel_type, kind);
    let top = top_strength(rules, panel, panel_type, kind);
    contenders_are_strongest(rules, panel, panel_type, kind);
    seqs::kept_holds(rules, contends(panel, panel_type, kind, top));
    if rules[i].strength() == top {
        assert(rules.contains(rules[i]));
        assert(all.contains(rules[i]));
        let k = choose|k: int| 0 <= k < all.len() && all[k] == rules[i];
        assert(k == 0);
    }
}

proof fn lemma_top_of_reordered(
    a: Seq<PanelRule>,
    b: Seq<PanelRule>,
    panel: PanelId,
    panel_type: PanelType,
    kind: EffectKind,
)
    requires
        a.to_multiset() == b.to_multiset(),
    ensures
        top_strength(a, panel, panel_type, kind) <= top_strength(b, panel, panel_type, kind),
{
    lemma_top(a, panel, panel_type, kind);
    lemma_top(b, panel, panel_type, kind);
    let top = top_strength(a, panel, panel_type, kind);
    if top >= 0 {
        let i = choose|i: int|
            0 <= i < a.len() && (#[trigger] a[i]).claims(panel, panel_type, kind)
                && a[i].strength() == top;
        seqs::reordered_holds_the_same(a, b, a[i]);
        assert(a.contains(a[i]));
        let j = choose|j: int| 0 <= j < b.len() && b[j] == a[i];
        assert(b[j].claims(panel, panel_type, kind));
    }
}

/// The order in which rules were added does not matter: two lists of the same
/// rules resolve alike, to the same rule or to a conflict between the same ids.
pub proof fn order_of_rules_does_not_matter(
    a: Seq<PanelRule>,
    b: Seq<PanelRule>,
    panel: PanelId,
    panel_type: PanelType,
    kind: EffectKind,
    x: Result<Option<PanelRule>, RuleError>,
    y: Result<Option<PanelRule>, RuleError>,
)
    requires
        a.to_multiset() == b.to_multiset(),
        settles(a, panel, panel_type, kind, x),
        settles(b, panel, panel_type, kind, y),
    ensures
        match (x, y) {
            (Ok(p), Ok(q)) => p == q,
            (Err(RuleError::Conflict(p)), Err(RuleError::Conflict(q))) => p.kind == q.kind
                && p.contenders@ == q.contenders@,
            _ => false,
        },
{
    lemma_top_of_reordered(a, b, panel, panel_type, kind);
    lemma_top_of_reordered(b, a, panel, panel_type, kind);
    let top = top_strength(a, panel, panel_type, kind);
    let p = contends(panel, panel_type, kind, top);
    seqs::kept_of_reordered(a, b, p);
    let (s, t) = (contenders(a, panel, panel_type, kind), contenders(b, panel, panel_type, kind));
    seqs::reordered_holds_the_same(s, t, s[0]);
    if s.len() == 1 {
        assert(s.contains(s[0]));
    }
    if let (Err(RuleError::Conflict(d)), Err(RuleError::Conflict(e))) = (x, y) {
        seqs::mapped_of_reordered(s, t, |r: PanelRule| r.key());
        let leq = |i: RuleId, j: RuleId| i.0 <= j.0;
        assert(vstd::relations::total_ordering(leq));
        assert(vstd::relations::sorted_by(d.contenders@, leq));
        assert(vstd::relations::sorted_by(e.contenders@, leq));
        vstd::seq_lib::lemma_sorted_unique(d.contenders@, e.contenders@, leq);
    }
}

/// A rule claims one effect of the panels that its selector picks: all of them,
/// those of one type, or a single one.
pub proof fn rules_claim_what_they_select(
    rule: PanelRule,
    panel: PanelId,
    panel_type: PanelType,
    kind: EffectKind,
)
    ensures
        ({
            let picks = match rule.reach() {
                RuleSelector::AnyPanel => true,
                RuleSelector::PanelType(t) => t == panel_type,
                RuleSelector::Panel(p) => p == panel,
            };
            let same = match rule.claim() {
                RuleEffect::Placement(_) => kind == EffectKind::Placement,
                RuleEffect::Presentation(_) => kind == EffectKind::Presentation,
                RuleEffect::MinSize(_) => kind == EffectKind::MinSize,
                RuleEffect::Accent(_) => kind == EffectKind::Accent,
            };
            rule.claims(panel, panel_type, kind) <==> picks && same
        }),
{
}

/// A rule is stronger than another when its origin stands higher (safety over
/// user over workspace) or, for one origin, when it selects more narrowly (one
/// panel over a type over all).
pub proof fn rules_rank_by_origin_then_reach(a: PanelRule, b: PanelRule)
    ensures
        ({
            let origin = |r: PanelRule|
                match r.claimant() {
                    RuleOrigin::Safety => 3int,
                    RuleOrigin::User => 2int,
                    RuleOrigin::Workspace => 1int,
                };
            let reach = |r: PanelRule|
                match r.reach() {
                    RuleSelector::Panel(_) => 3int,
                    RuleSelector::PanelType(_) => 2int,
                    RuleSelector::AnyPanel => 1int,
                };
            &&& a.strength() > b.strength() <==> origin(a) > origin(b) || origin(a) == origin(b)
                && reach(a) > reach(b)
            &&& a.strength() == b.strength() <==> origin(a) == origin(b) && reach(a) == reach(b)
        }),
{
}

/// The contenders for an effect are the rules that claim it and that no other
/// claim is stronger than, in the order of the rules.
pub proof fn contenders_are_unbeaten(
    rules: Seq<PanelRule>,
    panel: PanelId,
    panel_type: PanelType,
    kind: EffectKind,
)
    ensures
        contenders(rules, panel, panel_type, kind) == rules.filter(
            |r: PanelRule|
                r.claims(panel, panel_type, kind) && forall|i: int|
                    0 <= i < rules.len() && (#[trigger] rules[i]).claims(panel, panel_type, kind)
                        ==> rules[i].strength() <= r.strength(),
        ),
{
    let top = top_strength(rules, panel, panel_type, kind);
    let p = contends(panel, panel_type, kind, top);
    let q = |r: PanelRule|
        r.claims(panel, panel_type, kind) && forall|i: int|
            0 <= i < rules.len() && (#[trigger] rules[i]).claims(panel, panel_type, kind)
                ==> rules[i].strength() <= r.strength();
    contenders_are_strongest(rules, panel, panel_type, kind);
    let all = contenders(rules, panel, panel_type, kind);
    seqs::kept_holds(rules, p);
    assert forall|k: int| 0 <= k < rules.len() implies p(rules[k]) == #[trigger] q(rules[k]) by {
        let r = rules[k];
        if p(r) {
            assert(q(r));
        }
        if q(r) {
            assert(r.claims(panel, panel_type, kind));
            assert(all.len() > 0);
            let w = all[0];
            assert(rules.contains(w));
            let j = choose|j: int| 0 <= j < rules.len() && rules[j] == w;
            assert(rules[j].claims(panel, panel_type, kind) && rules[j].strength() == top);
            assert(r.strength() >= top);
        }
    }
    seqs::keeping_filters(rules, p);
    lemma_filter_agrees(rules, p, q);
}

proof fn lemma_filter_agrees(
    rules: Seq<PanelRule>,
    p: spec_fn(PanelRule) -> bool,
    q: spec_fn(PanelRule) -> bool,
)
    requires
        forall|k: int| 0 <= k < rules.len() ==> p(#[trigger] rules[k]) == q(rules[k]),
    ensures
        rules.filter(p) == rules.filter(q),
    decreases rules.len(),
{
    reveal(Seq::filter);
    if rules.len() > 0 {
        let before = rules.drop_last();
        assert forall|k: int| 0 <= k < before.len() implies p(#[trigger] before[k]) == q(
            before[k],
        ) by {
            assert(before[k] == rules[k]);
        }
        lemma_filter_agrees(before, p, q);
        assert(rules[rules.len() - 1] == rules.last());
    }
}

/// A rule is admitted while there are fewer than 64 and none has its id.
pub proof fn rules_are_admitted_while_there_is_room(rules: Seq<PanelRule>, rule: PanelRule)
    ensures
        rules.len() >= 64 ==> admission_fault(rules, rule) == Some(
            RuleError::TooManyRules { cap: 64 },
        ),
        rules.len() < 64 ==> (admission_fault(rules, rule) == Some(
            RuleError::DuplicateRule { id: rule.key() },
        ) <==> exists|i: int| 0 <= i < rules.len() && (#[trigger] rules[i]).key() == rule.key()),
        rules.len() < 64 && !(exists|i: int|
            0 <= i < rules.len() && (#[trigger] rules[i]).key() == rule.key()) ==> admission_fault(
            rules,
            rule,
        ) is None,
{
}

/// A list of rules is refused for the first rule that is not admitted behind
/// those before it.
pub proof fn lists_are_refused_for_their_first_fault(rules: Seq<PanelRule>, n: int, k: int)
    requires
        0 <= k <= n <= rules.len(),
        forall|j: int|
            0 <= j < k ==> admission_fault(rules.take(j), #[trigger] rules[j]) is None,
    ensures
        k < n && admission_fault(rules.take(k), rules[k]) is Some ==> list_fault(rules, n)
            == admission_fault(rules.take(k), rules[k]),
        k == n ==> list_fault(rules, n) is None,
    decreases n,
{
    if n > 0 {
        if k < n {
            lists_are_refused_for_their_first_fault(rules, n - 1, k);
            if k == n - 1 {
                lists_are_refused_for_their_first_fault(rules, n - 1, n - 1);
            }
        } else {
            lists_are_refused_for_their_first_fault(rules, n - 1, n - 1);
            assert(admission_fault(rules.take(n - 1), rules[n - 1]) is None);
        }
    }
}

/// The words that name the origin of a rule.
pub proof fn origins_are_named(s: Seq<char>)
    ensures
        RuleOrigin::named(s) == Some(RuleOrigin::Workspace) <==> s == "workspace"@,
        RuleOrigin::named(s) == Some(RuleOrigin::User) <==> s == "user"@,
        RuleOrigin::named(s) == Some(RuleOrigin::Safety) <==> s == "safety"@,
{
    origin_names_round_trip(RuleOrigin::Workspace, s);
    origin_names_round_trip(RuleOrigin::User, s);
    origin_names_round_trip(RuleOrigin::Safety, s);
}

} // verus!
