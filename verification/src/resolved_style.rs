//! Style cascade: seven layers claim colors for keys, the highest layer wins,
//! and every resolved color names the layer that supplied it.

use crate::panel_rules::RuleOrigin;
use crate::text;
use crate::theme::{CoreToken, TokenColor};
use vstd::prelude::*;

verus! {

/// Refusal of a key.
#[derive(Debug, Clone, PartialEq, Eq)]
pub enum StyleError {
    /// The key is neither a core token nor of a plugin.
    UnknownKey {
        /// The key.
        key: String,
    },
    /// The key is one of the terminal, whose colors are not styled here.
    TerminalKey {
        /// The key.
        key: String,
    },
    /// The key of a plugin names no owner.
    BadPluginKey {
        /// The key.
        key: String,
    },
}

impl StyleError {
    /// The message of the error.
    pub open spec fn spelled(self) -> Seq<char> {
        match self {
            StyleError::UnknownKey { key } => "unknown style key: "@ + key@,
            StyleError::TerminalKey { key } => "terminal style key rejected: "@ + key@,
            StyleError::BadPluginKey { key } => "malformed plugin style key: "@ + key@,
        }
    }

    /// Spells the error.
    #[must_use]
    pub fn text(&self) -> (out: String)
        ensures
            out@ == self.spelled(),
    {
        match self {
            Self::UnknownKey { key } => text::joined("unknown style key: ", key.as_str()),
            Self::TerminalKey { key } => text::joined(
                "terminal style key rejected: ",
                key.as_str(),
            ),
            Self::BadPluginKey { key } => text::joined("malformed plugin style key: ", key.as_str()),
        }
    }
}

/// The layers, lowest first.
#[derive(Debug, Clone, Copy, PartialEq, Eq, Structural, Hash, PartialOrd, Ord)]
pub enum StyleOrigin {
    /// Built-in defaults.
    FrameworkDefault,
    /// Theme of plugin content.
    PluginContentTheme,
    /// Preference of a plugin.
    PluginPreference,
    /// Theme of the user.
    UserTheme,
    /// Rule of a workspace.
    WorkspaceRule,
    /// Rule of the user.
    UserRule,
    /// Safety policy.
    Safety,
}

/// The layer of a name.
pub open spec fn origin_named(name: Seq<char>) -> Option<StyleOrigin> {
    if name == "framework-default"@ {
        Some(StyleOrigin::FrameworkDefault)
    } else if name == "plugin-content-theme"@ {
        Some(StyleOrigin::PluginContentTheme)
    } else if name == "plugin-preference"@ {
        Some(StyleOrigin::PluginPreference)
    } else if name == "user-theme"@ {
        Some(StyleOrigin::UserTheme)
    } else if name == "workspace-rule"@ {
        Some(StyleOrigin::WorkspaceRule)
    } else if name == "user-rule"@ {
        Some(StyleOrigin::UserRule)
    } else if name == "safety"@ {
        Some(StyleOrigin::Safety)
    } else {
        None
    }
}

/// The layers from the lowest to the highest.
pub open spec fn layers() -> Seq<StyleOrigin> {
    seq![
        StyleOrigin::FrameworkDefault,
        StyleOrigin::PluginContentTheme,
        StyleOrigin::PluginPreference,
        StyleOrigin::UserTheme,
        StyleOrigin::WorkspaceRule,
        StyleOrigin::UserRule,
        StyleOrigin::Safety,
    ]
}

impl StyleOrigin {
    /// The height of the layer.
    pub open spec fn height(self) -> int {
        match self {
            StyleOrigin::FrameworkDefault => 0,
            StyleOrigin::PluginContentTheme => 1,
            StyleOrigin::PluginPreference => 2,
            StyleOrigin::UserTheme => 3,
            StyleOrigin::WorkspaceRule => 4,
            StyleOrigin::UserRule => 5,
            StyleOrigin::Safety => 6,
        }
    }

    /// The rank of the layer; the higher one wins.
    #[must_use]
    pub fn rank(self) -> (rank: u8)
        ensures
            rank == self.height(),
    {
        match self {
            Self::FrameworkDefault => 0,
            Self::PluginContentTheme => 1,
            Self::PluginPreference => 2,
            Self::UserTheme => 3,
            Self::WorkspaceRule => 4,
            Self::UserRule => 5,
            Self::Safety => 6,
        }
    }

    /// The layers from the lowest to the highest.
    #[must_use]
    pub fn ordered() -> (all: [Self; 7])
        ensures
            all@ == layers(),
    {
        let all = [
            Self::FrameworkDefault,
            Self::PluginContentTheme,
            Self::PluginPreference,
            Self::UserTheme,
            Self::WorkspaceRule,
            Self::UserRule,
            Self::Safety,
        ];
        assert(all@ =~= layers());
        all
    }

    /// The name of the layer.
    pub open spec fn spelled(self) -> Seq<char> {
        match self {
            StyleOrigin::FrameworkDefault => "framework-default"@,
            StyleOrigin::PluginContentTheme => "plugin-content-theme"@,
            StyleOrigin::PluginPreference => "plugin-preference"@,
            StyleOrigin::UserTheme => "user-theme"@,
            StyleOrigin::WorkspaceRule => "workspace-rule"@,
            StyleOrigin::UserRule => "user-rule"@,
            StyleOrigin::Safety => "safety"@,
        }
    }

    /// The name of the layer.
    #[must_use]
    pub fn as_str(self) -> (name: &'static str)
        ensures
            name@ == self.spelled(),
    {
        match self {
            Self::FrameworkDefault => "framework-default",
            Self::PluginContentTheme => "plugin-content-theme",
            Self::PluginPreference => "plugin-preference",
            Self::UserTheme => "user-theme",
            Self::WorkspaceRule => "workspace-rule",
            Self::UserRule => "user-rule",
            Self::Safety => "safety",
        }
    }

    /// The layer of a name, exactly as spelled.
    #[must_use]
    pub fn parse(s: &str) -> (origin: Option<Self>)
        ensures
            origin == origin_named(s@),
    {
        if text::same_text(s, "framework-default") {
            Some(Self::FrameworkDefault)
        } else if text::same_text(s, "plugin-content-theme") {
            Some(Self::PluginContentTheme)
        } else if text::same_text(s, "plugin-preference") {
            Some(Self::PluginPreference)
        } else if text::same_text(s, "user-theme") {
            Some(Self::UserTheme)
        } else if text::same_text(s, "workspace-rule") {
            Some(Self::WorkspaceRule)
        } else if text::same_text(s, "user-rule") {
            Some(Self::UserRule)
        } else if text::same_text(s, "safety") {
            Some(Self::Safety)
        } else {
            None
        }
    }

    /// The layer of a panel rule.
    pub open spec fn of_rule(origin: RuleOrigin) -> StyleOrigin {
        match origin {
            RuleOrigin::Workspace => StyleOrigin::WorkspaceRule,
            RuleOrigin::User => StyleOrigin::UserRule,
            RuleOrigin::Safety => StyleOrigin::Safety,
        }
    }

    /// The layer of a panel rule.
    #[must_use]
    pub fn for_rule_origin(origin: RuleOrigin) -> (layer: Self)
        ensures
            layer == StyleOrigin::of_rule(origin),
    {
        match origin {
            RuleOrigin::Workspace => Self::WorkspaceRule,
            RuleOrigin::User => Self::UserRule,
            RuleOrigin::Safety => Self::Safety,
        }
    }
}

/// The name of a layer is read back as the layer.
pub proof fn layer_names_round_trip(origin: StyleOrigin)
    ensures
        origin_named(origin.spelled()) == Some(origin),
{
    reveal_strlit("framework-default");
    reveal_strlit("plugin-content-theme");
    reveal_strlit("plugin-preference");
    reveal_strlit("user-theme");
    reveal_strlit("workspace-rule");
    reveal_strlit("user-rule");
    reveal_strlit("safety");
    assert("framework-default"@.len() == 17 && "plugin-content-theme"@.len() == 20);
    assert("plugin-preference"@.len() == 17 && "user-theme"@.len() == 10);
    assert("workspace-rule"@.len() == 14 && "user-rule"@.len() == 9 && "safety"@.len() == 6);
    assert("framework-default"@[0] != "plugin-preference"@[0]);
}

/// Rules of panels rank in the cascade as they rank among themselves, and above
/// every theme.
pub proof fn rules_rank_above_themes(a: RuleOrigin, b: RuleOrigin)
    ensures
        StyleOrigin::of_rule(a).height() <= StyleOrigin::of_rule(b).height() <==> a.height()
            <= b.height(),
        StyleOrigin::of_rule(a).height() > StyleOrigin::UserTheme.height(),
{
}

/// The color that a key resolves to, and the layer it comes from.
#[derive(Debug, Clone, Copy, PartialEq, Eq)]
pub struct ResolvedStyle {
    /// The color.
    pub value: TokenColor,
    /// The layer.
    pub origin: StyleOrigin,
}

/// What makes a key unacceptable.
pub enum KeyFault {
    /// It is neither a core token nor of a plugin.
    Unknown,
    /// It is one of the terminal.
    Terminal,
    /// It is of a plugin and names no owner.
    BadPlugin,
}

/// The fault of a key, given whether it is a core token.
pub open spec fn key_fault(key: Seq<char>, is_core: bool) -> Option<KeyFault> {
    if text::has_head(key, "terminal."@) || key == "terminal"@ {
        Some(KeyFault::Terminal)
    } else if text::has_head(key, "plugin."@) {
        let rest = key.skip("plugin."@.len() as int);
        if rest.len() == 0 || rest[0] == '.' {
            Some(KeyFault::BadPlugin)
        } else {
            None
        }
    } else if is_core {
        None
    } else {
        Some(KeyFault::Unknown)
    }
}

/// The error reports the fault of the key.
pub open spec fn reports(e: StyleError, fault: KeyFault, wanted: Seq<char>) -> bool {
    match fault {
        KeyFault::Unknown => e matches StyleError::UnknownKey { key } && key@ == wanted,
        KeyFault::Terminal => e matches StyleError::TerminalKey { key } && key@ == wanted,
        KeyFault::BadPlugin => e matches StyleError::BadPluginKey { key } && key@ == wanted,
    }
}

/// The claims of the core tokens: each claims its color in the lowest layer, a
/// later one of the same name in place of an earlier one.
pub open spec fn seeded(tokens: Seq<CoreToken>) -> Map<(StyleOrigin, Seq<char>), TokenColor>
    decreases tokens.len(),
{
    if tokens.len() == 0 {
        Map::empty()
    } else {
        seeded(tokens.drop_last()).insert(
            (StyleOrigin::FrameworkDefault, tokens.last().name@),
            tokens.last().color,
        )
    }
}

/// The claim that wins a key among the lowest `n` layers: the highest one.
pub open spec fn winner_among(
    claims: Map<(StyleOrigin, Seq<char>), TokenColor>,
    key: Seq<char>,
    n: int,
) -> Option<ResolvedStyle>
    decreases n,
{
    if n <= 0 {
        None
    } else if claims.contains_key((layers()[n - 1], key)) {
        Some(
            ResolvedStyle {
                value: claims[(layers()[n - 1], key)],
                origin: layers()[n - 1],
            },
        )
    } else {
        winner_among(claims, key, n - 1)
    }
}

/// The claim that wins a key.
pub open spec fn winner(
    claims: Map<(StyleOrigin, Seq<char>), TokenColor>,
    key: Seq<char>,
) -> Option<ResolvedStyle> {
    winner_among(claims, key, 7)
}

/// A key wins with a color exactly when the layer claims it and no higher layer
/// does.
pub proof fn highest_claim_wins(
    claims: Map<(StyleOrigin, Seq<char>), TokenColor>,
    key: Seq<char>,
    origin: StyleOrigin,
)
    ensures
        winner(claims, key) matches Some(w) && w.origin == origin <==> claims.contains_key(
            (origin, key),
        ) && forall|other: StyleOrigin|
            other.height() > origin.height() ==> !#[trigger] claims.contains_key((other, key)),
        winner(claims, key) matches Some(w) ==> claims.contains_key((w.origin, key)) && w.value
            == claims[(w.origin, key)],
        winner(claims, key) is None <==> forall|other: StyleOrigin| !#[trigger] claims.contains_key(
            (other, key),
        ),
{
    reveal_with_fuel(winner_among, 8);
    assert(layers()[0] == StyleOrigin::FrameworkDefault);
    assert(layers()[1] == StyleOrigin::PluginContentTheme);
    assert(layers()[2] == StyleOrigin::PluginPreference);
    assert(layers()[3] == StyleOrigin::UserTheme);
    assert(layers()[4] == StyleOrigin::WorkspaceRule);
    assert(layers()[5] == StyleOrigin::UserRule);
    assert(layers()[6] == StyleOrigin::Safety);
}

/// A claim of the safety layer wins over every other.
pub proof fn safety_is_never_overridden(
    claims: Map<(StyleOrigin, Seq<char>), TokenColor>,
    key: Seq<char>,
)
    requires
        claims.contains_key((StyleOrigin::Safety, key)),
    ensures
        winner(claims, key) == Some(
            ResolvedStyle {
                value: claims[(StyleOrigin::Safety, key)],
                origin: StyleOrigin::Safety,
            },
        ),
{
    assert(layers()[6] == StyleOrigin::Safety);
}

/// Claiming a key leaves every other key as it was.
pub proof fn claims_touch_one_key(
    claims: Map<(StyleOrigin, Seq<char>), TokenColor>,
    origin: StyleOrigin,
    key: Seq<char>,
    value: TokenColor,
    other: Seq<char>,
    n: int,
)
    requires
        other != key,
    ensures
        winner_among(claims.insert((origin, key), value), other, n) == winner_among(
            claims,
            other,
            n,
        ),
    decreases n,
{
    if n > 0 {
        claims_touch_one_key(claims, origin, key, value, other, n - 1);
    }
}

/// A call of [`StyleCascade::set`].
pub struct Claiming {
    /// The layer.
    pub origin: StyleOrigin,
    /// The key.
    pub key: Seq<char>,
    /// The color.
    pub value: TokenColor,
}

/// Whether a claim of the layer on the key is accepted, given whether the key
/// is a core token.
pub open spec fn is_accepted(origin: StyleOrigin, key: Seq<char>, is_core: bool) -> bool {
    origin != StyleOrigin::FrameworkDefault && key_fault(key, is_core) is None
}

/// The claims after a call: an accepted one claims its key, a refused one
/// changes nothing.
pub open spec fn after_call(
    claims: Map<(StyleOrigin, Seq<char>), TokenColor>,
    call: Claiming,
) -> Map<(StyleOrigin, Seq<char>), TokenColor> {
    if is_accepted(
        call.origin,
        call.key,
        claims.contains_key((StyleOrigin::FrameworkDefault, call.key)),
    ) {
        claims.insert((call.origin, call.key), call.value)
    } else {
        claims
    }
}

/// The claims of a cascade of the tokens after a history of calls.
pub open spec fn after_calls(tokens: Seq<CoreToken>, calls: Seq<Claiming>) -> Map<
    (StyleOrigin, Seq<char>),
    TokenColor,
>
    decreases calls.len(),
{
    if calls.len() == 0 {
        seeded(tokens)
    } else {
        after_call(after_calls(tokens, calls.drop_last()), calls.last())
    }
}

/// The color of the last call that claims the key for the layer.
pub open spec fn last_claim(
    calls: Seq<Claiming>,
    origin: StyleOrigin,
    key: Seq<char>,
) -> Option<TokenColor>
    decreases calls.len(),
{
    if calls.len() == 0 {
        None
    } else if calls.last().origin == origin && calls.last().key == key {
        Some(calls.last().value)
    } else {
        last_claim(calls.drop_last(), origin, key)
    }
}

/// What a history of calls leaves for a key: every layer but the lowest claims
/// the color of its last call, when the key is acceptable, and the lowest one
/// claims the default of a core token.
pub proof fn histories_leave_the_last_claims(
    tokens: Seq<CoreToken>,
    calls: Seq<Claiming>,
    key: Seq<char>,
    origin: StyleOrigin,
)
    ensures
        ({
            let lowest = (StyleOrigin::FrameworkDefault, key);
            let claims = after_calls(tokens, calls);
            let is_core = seeded(tokens).contains_key(lowest);
            &&& claims.contains_key(lowest) == is_core
            &&& is_core ==> claims[lowest] == seeded(tokens)[lowest]
            &&& origin != StyleOrigin::FrameworkDefault ==> (claims.contains_key((origin, key))
                <==> is_accepted(origin, key, is_core) && last_claim(calls, origin, key) is Some)
            &&& origin != StyleOrigin::FrameworkDefault && claims.contains_key((origin, key))
                ==> last_claim(calls, origin, key) == Some(claims[(origin, key)])
        }),
    decreases calls.len(),
{
    if calls.len() == 0 {
        lemma_seeded(tokens, -1);
    } else {
        histories_leave_the_last_claims(tokens, calls.drop_last(), key, origin);
    }
}

/// What resolves after a history of calls: a key that some layer claimed gives
/// the last color of the highest such layer, an unclaimed core token gives its
/// default in the lowest layer, and nothing else resolves.
pub proof fn histories_decide_the_winner(
    tokens: Seq<CoreToken>,
    calls: Seq<Claiming>,
    key: Seq<char>,
)
    ensures
        ({
            let lowest = (StyleOrigin::FrameworkDefault, key);
            let is_core = seeded(tokens).contains_key(lowest);
            match winner(after_calls(tokens, calls), key) {
                Some(w) => {
                    &&& if w.origin == StyleOrigin::FrameworkDefault {
                        is_core && w.value == seeded(tokens)[lowest]
                    } else {
                        is_accepted(w.origin, key, is_core) && last_claim(calls, w.origin, key)
                            == Some(w.value)
                    }
                    &&& forall|other: StyleOrigin|
                        other.height() > w.origin.height() && is_accepted(other, key, is_core)
                            ==> #[trigger] last_claim(calls, other, key) is None
                },
                None => !is_core && forall|other: StyleOrigin|
                    is_accepted(other, key, is_core) ==> #[trigger] last_claim(calls, other, key)
                        is None,
            }
        }),
{
    let claims = after_calls(tokens, calls);
    let is_core = seeded(tokens).contains_key((StyleOrigin::FrameworkDefault, key));
    histories_leave_the_last_claims(tokens, calls, key, StyleOrigin::FrameworkDefault);
    assert forall|other: StyleOrigin| is_accepted(other, key, is_core) implies (
    #[trigger] last_claim(calls, other, key) is Some <==> claims.contains_key((other, key))) by {
        histories_leave_the_last_claims(tokens, calls, key, other);
    }
    match winner(claims, key) {
        Some(w) => {
            highest_claim_wins(claims, key, w.origin);
            histories_leave_the_last_claims(tokens, calls, key, w.origin);
        },
        None => {
            highest_claim_wins(claims, key, StyleOrigin::Safety);
            assert(!claims.contains_key((StyleOrigin::FrameworkDefault, key)));
        },
    }
}

#[derive(Debug, PartialEq, Eq)]
struct Claim {
    origin: StyleOrigin,
    key: String,
    value: TokenColor,
}

spec fn claims_in(entries: Seq<Claim>) -> Map<(StyleOrigin, Seq<char>), TokenColor>
    decreases entries.len(),
{
    if entries.len() == 0 {
        Map::empty()
    } else {
        claims_in(entries.drop_last()).insert(
            (entries.last().origin, entries.last().key@),
            entries.last().value,
        )
    }
}

spec fn claims_key(entries: Seq<Claim>, i: int, origin: StyleOrigin, key: Seq<char>) -> bool {
    entries[i].origin == origin && entries[i].key@ == key
}

proof fn lemma_claims(entries: Seq<Claim>, origin: StyleOrigin, key: Seq<char>)
    ensures
        claims_in(entries).contains_key((origin, key)) <==> exists|i: int|
            0 <= i < entries.len() && #[trigger] claims_key(entries, i, origin, key),
    decreases entries.len(),
{
    if entries.len() > 0 {
        let rest = entries.drop_last();
        lemma_claims(rest, origin, key);
        let n = entries.len() - 1;
        if claims_in(entries).contains_key((origin, key)) {
            if entries[n].origin == origin && entries[n].key@ == key {
                assert(claims_key(entries, n, origin, key));
            } else {
                let i = choose|i: int|
                    0 <= i < rest.len() && #[trigger] claims_key(rest, i, origin, key);
                assert(claims_key(entries, i, origin, key));
            }
        }
        if exists|i: int| 0 <= i < entries.len() && #[trigger] claims_key(entries, i, origin, key) {
            let i = choose|i: int|
                0 <= i < entries.len() && #[trigger] claims_key(entries, i, origin, key);
            if i < n {
                assert(claims_key(rest, i, origin, key));
            }
        }
    }
}

proof fn lemma_reclaim(entries: Seq<Claim>, k: int, claim: Claim)
    requires
        0 <= k < entries.len(),
        claims_key(entries, k, claim.origin, claim.key@),
        forall|j: int|
            k < j < entries.len() ==> !#[trigger] claims_key(entries, j, claim.origin, claim.key@),
    ensures
        claims_in(entries.update(k, claim)) == claims_in(entries).insert(
            (claim.origin, claim.key@),
            claim.value,
        ),
    decreases entries.len(),
{
    let after = entries.update(k, claim);
    let n = entries.len() - 1;
    if k == n {
        assert(after.drop_last() =~= entries.drop_last());
    } else {
        let rest = entries.drop_last();
        assert forall|j: int| k < j < rest.len() implies !#[trigger] claims_key(
            rest,
            j,
            claim.origin,
            claim.key@,
        ) by {
            assert(!claims_key(entries, j, claim.origin, claim.key@));
        }
        lemma_reclaim(rest, k, claim);
        assert(after.drop_last() =~= rest.update(k, claim));
        assert(!claims_key(entries, n, claim.origin, claim.key@));
    }
    assert(claims_in(after) =~= claims_in(entries).insert(
        (claim.origin, claim.key@),
        claim.value,
    ));
}

fn same_color(a: TokenColor, b: TokenColor) -> (same: bool)
    ensures
        same == (a == b),
{
    let same: bool = a.0[0] == b.0[0] && a.0[1] == b.0[1] && a.0[2] == b.0[2] && a.0[3] == b.0[3];
    proof {
        if same {
            assert(a.0@ =~= b.0@);
            assert(a.0 =~= b.0);
        }
    }
    same
}

/// What a list of resolved keys says.
pub open spec fn keys_of(styles: Seq<(String, ResolvedStyle)>) -> Seq<Seq<char>> {
    Seq::new(styles.len(), |i: int| styles[i].0@)
}

/// The keys rise, so that none stands twice.
pub open spec fn rising(keys: Seq<Seq<char>>) -> bool {
    forall|i: int, j: int|
        0 <= i < j < keys.len() ==> #[trigger] keys[i] != #[trigger] keys[j] && text::text_le(
            keys[i],
            keys[j],
        )
}

/// The style cascade.
#[derive(Debug, Eq)]
pub struct StyleCascade {
    entries: Vec<Claim>,
}

impl StyleCascade {
    /// The color that each layer claims for each key.
    pub closed spec fn claims(self) -> Map<(StyleOrigin, Seq<char>), TokenColor> {
        claims_in(self.entries@)
    }

    /// Whether the key is a core token.
    pub open spec fn is_core(self, key: Seq<char>) -> bool {
        self.claims().contains_key((StyleOrigin::FrameworkDefault, key))
    }

    /// Creates a cascade whose lowest layer claims the default of every core
    /// token.
    #[must_use]
    pub fn new(tokens: &[CoreToken]) -> (cascade: Self)
        ensures
            cascade.claims() == seeded(tokens@),
    {
        let mut entries: Vec<Claim> = Vec::new();
        let mut i: usize = 0;
        assert(tokens@.take(0) =~= Seq::<CoreToken>::empty());
        while i < tokens.len()
            invariant
                0 <= i <= tokens.len(),
                claims_in(entries@) == seeded(tokens@.take(i as int)),
            decreases tokens.len() - i,
        {
            let token = tokens[i];
            let ghost before = entries@;
            entries.push(
                Claim {
                    origin: StyleOrigin::FrameworkDefault,
                    key: token.name.to_owned(),
                    value: token.color,
                },
            );
            assert(entries@.drop_last() =~= before);
            assert(tokens@.take(i + 1).drop_last() =~= tokens@.take(i as int));
            i = i + 1;
        }
        assert(tokens@.take(i as int) =~= tokens@);
        Self { entries }
    }

    /// The color that a layer claims for a key: the latest claim.
    fn claimed(&self, origin: StyleOrigin, key: &str) -> (color: Option<TokenColor>)
        ensures
            match color {
                Some(c) => self.claims().contains_key((origin, key@)) && self.claims()[(
                    origin,
                    key@,
                )] == c,
                None => !self.claims().contains_key((origin, key@)),
            },
    {
        let mut i: usize = self.entries.len();
        assert(self.entries@.take(i as int) =~= self.entries@);
        while i > 0
            invariant
                0 <= i <= self.entries.len(),
                self.claims().contains_key((origin, key@)) == claims_in(
                    self.entries@.take(i as int),
                ).contains_key((origin, key@)),
                self.claims().contains_key((origin, key@)) ==> self.claims()[(origin, key@)]
                    == claims_in(self.entries@.take(i as int))[(origin, key@)],
            decreases i,
        {
            i = i - 1;
            assert(self.entries@.take(i + 1).drop_last() =~= self.entries@.take(i as int));
            let entry = &self.entries[i];
            if entry.origin == origin && text::same_text(entry.key.as_str(), key) {
                return Some(entry.value);
            }
        }
        None
    }

    /// Whether every claim is one of the other cascade.
    fn is_within(&self, other: &Self) -> (yes: bool)
        ensures
            yes == forall|k: (StyleOrigin, Seq<char>)| #[trigger]
                self.claims().contains_key(k) ==> other.claims().contains_key(k)
                    && other.claims()[k] == self.claims()[k],
    {
        let mut i: usize = 0;
        while i < self.entries.len()
            invariant
                0 <= i <= self.entries.len(),
                forall|j: int|
                    0 <= j < i ==> other.claims().contains_key(
                        ((#[trigger] self.entries@[j]).origin, self.entries@[j].key@),
                    ) && other.claims()[(self.entries@[j].origin, self.entries@[j].key@)]
                        == self.claims()[(self.entries@[j].origin, self.entries@[j].key@)],
            decreases self.entries.len() - i,
        {
            let entry = &self.entries[i];
            let ghost k = (entry.origin, entry.key@);
            proof {
                lemma_claims(self.entries@, k.0, k.1);
                assert(claims_key(self.entries@, i as int, k.0, k.1));
                assert(self.claims().contains_key(k));
            }
            let own = self.claimed(entry.origin, entry.key.as_str());
            let found = other.claimed(entry.origin, entry.key.as_str());
            match (own, found) {
                (Some(a), Some(b)) => {
                    if !same_color(a, b) {
                        return false;
                    }
                },
                _ => {
                    return false;
                },
            }
            i = i + 1;
        }
        proof {
            assert forall|k: (StyleOrigin, Seq<char>)| #[trigger]
                self.claims().contains_key(k) implies other.claims().contains_key(k)
                && other.claims()[k] == self.claims()[k] by {
                lemma_claims(self.entries@, k.0, k.1);
                let j = choose|j: int|
                    0 <= j < self.entries@.len() && #[trigger] claims_key(
                        self.entries@,
                        j,
                        k.0,
                        k.1,
                    );
                assert((self.entries@[j].origin, self.entries@[j].key@) == k);
            }
        }
        true
    }

    fn check_key(&self, key: &str) -> (r: Result<(), StyleError>)
        ensures
            match key_fault(key@, self.is_core(key@)) {
                Some(fault) => r matches Err(e) && reports(e, fault, key@),
                None => r is Ok,
            },
    {
        let chars = text::chars_of(key);
        if text::starts_with(chars.as_slice(), "terminal.") || text::same_text(key, "terminal") {
            return Err(StyleError::TerminalKey { key: key.to_owned() });
        }
        proof {
            reveal_strlit("plugin.");
        }
        if text::starts_with(chars.as_slice(), "plugin.") {
            if chars.len() == 7 || chars[7] == '.' {
                return Err(StyleError::BadPluginKey { key: key.to_owned() });
            }
            return Ok(());
        }
        if self.claimed(StyleOrigin::FrameworkDefault, key).is_some() {
            return Ok(());
        }
        Err(StyleError::UnknownKey { key: key.to_owned() })
    }

    /// Claims a key in a layer. The lowest layer is not written, and keys of
    /// the terminal, of no one, or of an unnamed plugin are refused.
    pub fn set(&mut self, origin: StyleOrigin, key: &str, value: TokenColor) -> (r: Result<
        (),
        StyleError,
    >)
        ensures
            final(self).claims() == after_call(
                old(self).claims(),
                Claiming { origin, key: key@, value },
            ),
            if origin == StyleOrigin::FrameworkDefault {
                r matches Err(e) && reports(e, KeyFault::Unknown, key@)
            } else {
                match key_fault(key@, old(self).is_core(key@)) {
                    Some(fault) => r matches Err(e) && reports(e, fault, key@),
                    None => r is Ok,
                }
            },
    {
        if origin == StyleOrigin::FrameworkDefault {
            return Err(StyleError::UnknownKey { key: key.to_owned() });
        }
        match self.check_key(key) {
            Ok(_) => {},
            Err(e) => return Err(e),
        }
        let claim = Claim { origin, key: key.to_owned(), value };
        let mut i: usize = self.entries.len();
        while i > 0
            invariant
                0 <= i <= self.entries@.len(),
                self.entries@ == old(self).entries@,
                claim.origin == origin,
                claim.key@ == key@,
                claim.value == value,
                origin != StyleOrigin::FrameworkDefault,
                key_fault(key@, old(self).is_core(key@)) is None,
                forall|j: int|
                    i <= j < self.entries@.len() ==> !#[trigger] claims_key(
                        self.entries@,
                        j,
                        origin,
                        key@,
                    ),
            decreases i,
        {
            i = i - 1;
            if self.entries[i].origin == origin && text::same_text(
                self.entries[i].key.as_str(),
                key,
            ) {
                proof {
                    lemma_reclaim(self.entries@, i as int, claim);
                }
                self.entries.set(i, claim);
                return Ok(());
            }
            assert(!claims_key(self.entries@, i as int, origin, key@));
        }
        self.entries.push(claim);
        assert(self.entries@.drop_last() =~= old(self).entries@);
        Ok(())
    }

    /// The color that wins a key, and its layer.
    #[must_use]
    pub fn resolve(&self, key: &str) -> (style: Option<ResolvedStyle>)
        ensures
            style == winner(self.claims(), key@),
    {
        let mut found: Option<ResolvedStyle> = None;
        let order = StyleOrigin::ordered();
        let mut i: usize = 0;
        while i < 7
            invariant
                0 <= i <= 7,
                order@ == layers(),
                found == winner_among(self.claims(), key@, i as int),
            decreases 7 - i,
        {
            let origin = order[i];
            assert(origin == layers()[i as int]);
            if let Some(value) = self.claimed(origin, key) {
                found = Some(ResolvedStyle { value, origin });
            }
            i = i + 1;
        }
        found
    }

    /// Every claimed key with the color that wins it, in the order of the keys.
    #[must_use]
    pub fn resolve_all(&self) -> (styles: Vec<(String, ResolvedStyle)>)
        ensures
            rising(keys_of(styles@)),
            forall|key: Seq<char>|
                keys_of(styles@).contains(key) <==> #[trigger] winner(self.claims(), key) is Some,
            forall|i: int|
                0 <= i < styles@.len() ==> Some((#[trigger] styles@[i]).1) == winner(
                    self.claims(),
                    styles@[i].0@,
                ),
    {
        let mut styles: Vec<(String, ResolvedStyle)> = Vec::new();
        let mut n: usize = 0;
        while n < self.entries.len()
            invariant
                0 <= n <= self.entries.len(),
                rising(keys_of(styles@)),
                forall|key: Seq<char>| #[trigger]
                    keys_of(styles@).contains(key) <==> exists|i: int|
                        0 <= i < n && (#[trigger] self.entries@[i]).key@ == key,
                forall|i: int|
                    0 <= i < styles@.len() ==> Some((#[trigger] styles@[i]).1) == winner(
                        self.claims(),
                        styles@[i].0@,
                    ),
            decreases self.entries.len() - n,
        {
            let key = self.entries[n].key.as_str();
            proof {
                assert(claims_key(self.entries@, n as int, self.entries@[n as int].origin, key@));
                lemma_claims(self.entries@, self.entries@[n as int].origin, key@);
                highest_claim_wins(self.claims(), key@, self.entries@[n as int].origin);
            }
            let ghost before = styles@;
            if let Some(style) = self.resolve(key) {
                insert_sorted(&mut styles, key, style);
            }
            proof {
                assert forall|k: Seq<char>| #[trigger]
                    keys_of(styles@).contains(k) <==> exists|i: int|
                        0 <= i < n + 1 && (#[trigger] self.entries@[i]).key@ == k by {
                    if keys_of(styles@).contains(k) {
                        if keys_of(before).contains(k) {
                            let i = choose|i: int|
                                0 <= i < n && (#[trigger] self.entries@[i]).key@ == k;
                            assert(0 <= i < n + 1 && self.entries@[i].key@ == k);
                        } else {
                            assert(self.entries@[n as int].key@ == k);
                        }
                    }
                    if exists|i: int| 0 <= i < n + 1 && (#[trigger] self.entries@[i]).key@ == k {
                        let i = choose|i: int|
                            0 <= i < n + 1 && (#[trigger] self.entries@[i]).key@ == k;
                        if i < n {
                            assert(keys_of(before).contains(k));
                        }
                    }
                }
            }
            n = n + 1;
        }
        proof {
            assert forall|key: Seq<char>|
                keys_of(styles@).contains(key) <==> #[trigger] winner(self.claims(), key) is Some by {
                highest_claim_wins(self.claims(), key, StyleOrigin::Safety);
                if winner(self.claims(), key) is Some {
                    let origin = winner(self.claims(), key)->0.origin;
                    lemma_claims(self.entries@, origin, key);
                    let i = choose|i: int|
                        0 <= i < self.entries@.len() && #[trigger] claims_key(
                            self.entries@,
                            i,
                            origin,
                            key,
                        );
                    assert(self.entries@[i].key@ == key);
                }
                if keys_of(styles@).contains(key) {
                    let i = choose|i: int|
                        0 <= i < styles@.len() && keys_of(styles@)[i] == key;
                    assert(styles@[i].0@ == key);
                }
            }
        }
        styles
    }

    /// The layer that wins a key.
    #[must_use]
    pub fn attribution(&self, key: &str) -> (origin: Option<StyleOrigin>)
        ensures
            origin == match winner(self.claims(), key@) {
                Some(style) => Some(style.origin),
                None => None,
            },
    {
        match self.resolve(key) {
            Some(style) => Some(style.origin),
            None => None,
        }
    }
}

/// Enters a key at its place, unless it is there already.
fn insert_sorted(styles: &mut Vec<(String, ResolvedStyle)>, key: &str, style: ResolvedStyle)
    requires
        rising(keys_of(old(styles)@)),
    ensures
        rising(keys_of(final(styles)@)),
        forall|k: Seq<char>| #[trigger]
            keys_of(final(styles)@).contains(k) <==> k == key@ || keys_of(
                old(styles)@,
            ).contains(k),
        forall|i: int|
            0 <= i < final(styles)@.len() ==> (#[trigger] final(styles)@[i]).1 == style && final(
                styles
            )@[i].0@ == key@ || old(styles)@.contains(final(styles)@[i]),
{
    let ghost before = styles@;
    let ghost keys = keys_of(before);
    let mut i: usize = 0;
    while i < styles.len() && text::at_most(styles[i].0.as_str(), key)
        invariant
            0 <= i <= styles.len(),
            styles@ == before,
            before == old(styles)@,
            keys == keys_of(before),
            rising(keys),
            forall|j: int|
                0 <= j < i ==> text::text_le(#[trigger] keys[j], key@) && keys[j] != key@,
        decreases styles.len() - i,
    {
        assert(keys[i as int] == styles@[i as int].0@);
        if text::same_text(styles[i].0.as_str(), key) {
            assert(keys.contains(key@));
            return;
        }
        i = i + 1;
    }
    let ghost at = i as int;
    proof {
        if at < keys.len() {
            assert(keys[at] == before[at].0@);
            text::text_le_is_an_order(keys[at], key@, key@);
        }
        assert forall|j: int| at <= j < keys.len() implies text::text_le(
            key@,
            #[trigger] keys[j],
        ) && keys[j] != key@ by {
            text::text_le_is_an_order(key@, keys[at], keys[j]);
            text::text_le_is_an_order(keys[at], keys[j], key@);
            if j > at {
                assert(keys[at] != keys[j]);
            }
        }
    }
    styles.insert(i, (key.to_owned(), style));
    proof {
        let after = keys_of(styles@);
        assert(after =~= keys.insert(at, key@));
        assert forall|a: int, b: int| 0 <= a < b < after.len() implies #[trigger] after[a]
            != #[trigger] after[b] && text::text_le(after[a], after[b]) by {
            let x = if a < at {
                a
            } else {
                a - 1
            };
            let y = if b < at {
                b
            } else {
                b - 1
            };
            if a == at {
                assert(after[b] == keys[y]);
            } else if b == at {
                assert(after[a] == keys[x]);
            } else {
                assert(after[a] == keys[x] && after[b] == keys[y]);
            }
        }
        assert forall|k: Seq<char>| #[trigger]
            after.contains(k) <==> k == key@ || keys.contains(k) by {
            if after.contains(k) {
                let j = choose|j: int| 0 <= j < after.len() && after[j] == k;
                if j < at {
                    assert(keys[j] == k);
                } else if j > at {
                    assert(keys[j - 1] == k);
                }
            }
            if k == key@ {
                assert(after[at] == k);
            } else if keys.contains(k) {
                let j = choose|j: int| 0 <= j < keys.len() && keys[j] == k;
                if j < at {
                    assert(after[j] == k);
                } else {
                    assert(after[j + 1] == k);
                }
            }
        }
        assert forall|j: int| 0 <= j < styles@.len() implies (#[trigger] styles@[j]).1 == style
            && styles@[j].0@ == key@ || before.contains(styles@[j]) by {
            if j < at {
                assert(before[j] == styles@[j]);
            } else if j > at {
                assert(before[j - 1] == styles@[j]);
            }
        }
    }
}

/// Cascades are equal when their layers claim the same, in whatever order the
/// claims were made.
impl PartialEq for StyleCascade {
    fn eq(&self, other: &Self) -> (same: bool) {
        let same: bool = self.is_within(other) && other.is_within(self);
        proof {
            if same {
                assert(self.claims() =~= other.claims());
            }
        }
        same
    }
}

impl vstd::std_specs::cmp::PartialEqSpecImpl for StyleCascade {
    open spec fn obeys_eq_spec() -> bool {
        true
    }

    open spec fn eq_spec(&self, other: &Self) -> bool {
        self.claims() == other.claims()
    }
}

impl Clone for StyleCascade {
    fn clone(&self) -> (cascade: Self)
        ensures
            cascade.claims() == self.claims(),
    {
        let mut entries: Vec<Claim> = Vec::new();
        assert(self.entries@.take(0) =~= Seq::<Claim>::empty());
        while entries.len() < self.entries.len()
            invariant
                entries@.len() <= self.entries@.len(),
                claims_in(entries@) == claims_in(self.entries@.take(entries@.len() as int)),
            decreases self.entries.len() - entries.len(),
        {
            let i: usize = entries.len();
            let entry = &self.entries[i];
            let ghost before = entries@;
            entries.push(
                Claim { origin: entry.origin, key: entry.key.clone(), value: entry.value },
            );
            assert(entries@.drop_last() =~= before);
            assert(self.entries@.take(i + 1).drop_last() =~= self.entries@.take(i as int));
        }
        assert(self.entries@.take(self.entries@.len() as int) =~= self.entries@);
        Self { entries }
    }
}

/// Every core token resolves in a new cascade, to its default. Among tokens of
/// one name the last one counts.
pub proof fn core_tokens_resolve(tokens: Seq<CoreToken>, i: int)
    requires
        0 <= i < tokens.len(),
        forall|j: int| i < j < tokens.len() ==> (#[trigger] tokens[j]).name@ != tokens[i].name@,
    ensures
        winner(seeded(tokens), tokens[i].name@) == Some(
            ResolvedStyle { value: tokens[i].color, origin: StyleOrigin::FrameworkDefault },
        ),
{
    lemma_seeded(tokens, i);
    lemma_default(tokens, i);
    highest_claim_wins(seeded(tokens), tokens[i].name@, StyleOrigin::FrameworkDefault);
}

/// A core token that no call claimed keeps its default, whatever else was
/// claimed.
pub proof fn unclaimed_tokens_keep_their_default(
    tokens: Seq<CoreToken>,
    calls: Seq<Claiming>,
    i: int,
)
    requires
        0 <= i < tokens.len(),
        forall|j: int| i < j < tokens.len() ==> (#[trigger] tokens[j]).name@ != tokens[i].name@,
        forall|k: int| 0 <= k < calls.len() ==> (#[trigger] calls[k]).key != tokens[i].name@,
    ensures
        winner(after_calls(tokens, calls), tokens[i].name@) == Some(
            ResolvedStyle { value: tokens[i].color, origin: StyleOrigin::FrameworkDefault },
        ),
    decreases calls.len(),
{
    if calls.len() == 0 {
        core_tokens_resolve(tokens, i);
    } else {
        let before = calls.drop_last();
        assert forall|k: int| 0 <= k < before.len() implies (#[trigger] before[k]).key
            != tokens[i].name@ by {
            assert(before[k] == calls[k]);
        }
        unclaimed_tokens_keep_their_default(tokens, before, i);
        let call = calls[calls.len() - 1];
        claims_touch_one_key(
            after_calls(tokens, before),
            call.origin,
            call.key,
            call.value,
            tokens[i].name@,
            7,
        );
    }
}

proof fn lemma_default(tokens: Seq<CoreToken>, i: int)
    requires
        0 <= i < tokens.len(),
        forall|j: int| i < j < tokens.len() ==> (#[trigger] tokens[j]).name@ != tokens[i].name@,
    ensures
        seeded(tokens)[(StyleOrigin::FrameworkDefault, tokens[i].name@)] == tokens[i].color,
    decreases tokens.len(),
{
    let n = tokens.len() - 1;
    if i < n {
        let before = tokens.drop_last();
        assert forall|j: int| i < j < before.len() implies (#[trigger] before[j]).name@
            != before[i].name@ by {
            assert(before[j] == tokens[j]);
        }
        lemma_default(before, i);
        assert(tokens[n].name@ != tokens[i].name@);
    }
}

proof fn lemma_seeded(tokens: Seq<CoreToken>, i: int)
    ensures
        0 <= i < tokens.len() ==> seeded(tokens).contains_key(
            (StyleOrigin::FrameworkDefault, tokens[i].name@),
        ),
        forall|origin: StyleOrigin, key: Seq<char>|
            origin != StyleOrigin::FrameworkDefault ==> !#[trigger] seeded(tokens).contains_key(
                (origin, key),
            ),
    decreases tokens.len(),
{
    if tokens.len() > 0 {
        lemma_seeded(tokens.drop_last(), i);
        if 0 <= i < tokens.len() - 1 {
            assert(tokens.drop_last()[i] == tokens[i]);
        }
    }
}

/// The layers rank from the framework default over the themes and preferences up
/// to the rules, with safety on top.
pub proof fn layers_rank_in_order(a: StyleOrigin, b: StyleOrigin)
    ensures
        StyleOrigin::FrameworkDefault.height() < StyleOrigin::PluginContentTheme.height(),
        StyleOrigin::PluginContentTheme.height() < StyleOrigin::PluginPreference.height(),
        StyleOrigin::PluginPreference.height() < StyleOrigin::UserTheme.height(),
        StyleOrigin::UserTheme.height() < StyleOrigin::WorkspaceRule.height(),
        StyleOrigin::WorkspaceRule.height() < StyleOrigin::UserRule.height(),
        StyleOrigin::UserRule.height() < StyleOrigin::Safety.height(),
        a.height() == b.height() <==> a == b,
        StyleOrigin::of_rule(RuleOrigin::Workspace) == StyleOrigin::WorkspaceRule,
        StyleOrigin::of_rule(RuleOrigin::User) == StyleOrigin::UserRule,
        StyleOrigin::of_rule(RuleOrigin::Safety) == StyleOrigin::Safety,
{
}

/// Keys of the terminal are closed, a plugin key names something behind its
/// prefix, and any other key has to be a core token.
pub proof fn keys_are_checked_by_their_head(key: Seq<char>, rest: Seq<char>, is_core: bool)
    ensures
        key_fault("terminal"@, is_core) == Some(KeyFault::Terminal),
        key_fault("terminal."@ + rest, is_core) == Some(KeyFault::Terminal),
        key_fault("plugin."@ + rest, is_core) == (if rest.len() == 0 || rest[0] == '.' {
            Some(KeyFault::BadPlugin)
        } else {
            None
        }),
        key != "terminal"@ && key.take(9) != "terminal."@ && key.take(7) != "plugin."@
            ==> key_fault(key, is_core) == (if is_core {
            None
        } else {
            Some(KeyFault::Unknown)
        }),
{
    reveal_strlit("terminal");
    reveal_strlit("terminal.");
    reveal_strlit("plugin.");
    let a = "terminal."@ + rest;
    let b = "plugin."@ + rest;
    assert(a.take(9) =~= "terminal."@);
    assert(b.take(7) =~= "plugin."@);
    assert(b.skip(7) =~= rest);
    assert(b[0] == 'p');
    assert("terminal."@[0] == 't' && "terminal"@[0] == 't');
    assert(!text::has_head(b, "terminal."@)) by {
        if text::has_head(b, "terminal."@) {
            assert(b.take(9)[0] == 't');
        }
    }
}

/// The words that name the layers.
pub proof fn layers_are_named()
    ensures
        origin_named("framework-default"@) == Some(StyleOrigin::FrameworkDefault),
        origin_named("plugin-content-theme"@) == Some(StyleOrigin::PluginContentTheme),
        origin_named("plugin-preference"@) == Some(StyleOrigin::PluginPreference),
        origin_named("user-theme"@) == Some(StyleOrigin::UserTheme),
        origin_named("workspace-rule"@) == Some(StyleOrigin::WorkspaceRule),
        origin_named("user-rule"@) == Some(StyleOrigin::UserRule),
        origin_named("safety"@) == Some(StyleOrigin::Safety),
{
    layer_names_round_trip(StyleOrigin::FrameworkDefault);
    layer_names_round_trip(StyleOrigin::PluginContentTheme);
    layer_names_round_trip(StyleOrigin::PluginPreference);
    layer_names_round_trip(StyleOrigin::UserTheme);
    layer_names_round_trip(StyleOrigin::WorkspaceRule);
    layer_names_round_trip(StyleOrigin::UserRule);
    layer_names_round_trip(StyleOrigin::Safety);
}

} // verus!
