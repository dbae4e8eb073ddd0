//! Hint labels: each beacon target gets a short label from the character sets
//! of a policy, drawn from the left or the right half of the home row by the
//! side of the viewport it stands on.

use crate::geometry::Point;
use crate::text;
use vstd::prelude::*;
use vstd::slice::slice_subrange;

verus! {

/// Most labels of one hint session.
pub const MAX_BEACON_TARGETS: usize = 1024;

/// Most characters of one character set.
pub const MAX_CHARSET_LEN: usize = 64;

/// The home row used when no character set is configured.
pub const DEFAULT_HOME_CHARSET: &'static str = "asdfghjkl";

/// Refusal of a label policy or of a session.
#[derive(Debug, Clone, PartialEq, Eq)]
pub enum LabelError {
    /// A character set is empty, too long, holds another character than
    /// `[a-z0-9]`, or holds one twice.
    InvalidCharset(String),
    /// The session asks for more labels than there are.
    TooManyTargets {
        /// Labels asked for.
        requested: usize,
        /// Labels there are.
        capacity: usize,
    },
}

impl LabelError {
    /// The message of the error.
    pub open spec fn spelled(self) -> Seq<char> {
        match self {
            LabelError::InvalidCharset(detail) => "invalid label charset: "@ + detail@,
            LabelError::TooManyTargets { requested, capacity } =>
            "too many beacon targets: requested "@ + text::decimal(requested as nat)
                + ", capacity "@ + text::decimal(capacity as nat),
        }
    }

    /// Spells the error.
    #[must_use]
    pub fn text(&self) -> (out: String)
        ensures
            out@ == self.spelled(),
    {
        match self {
            Self::InvalidCharset(detail) => text::joined("invalid label charset: ", detail.as_str()),
            Self::TooManyTargets { requested, capacity } => text::ending_numbers(
                "too many beacon targets: requested ",
                *requested as u64,
                ", capacity ",
                *capacity as u64,
            ),
        }
    }
}

/// A character that a label may hold.
pub open spec fn is_label_char(c: char) -> bool {
    text::is_lower(c) || text::is_digit(c)
}

/// Every character may stand in a label.
pub open spec fn all_label_chars(s: Seq<char>) -> bool {
    forall|i: int| 0 <= i < s.len() ==> is_label_char(#[trigger] s[i])
}

/// The first position from `from` on whose character stands at an earlier one,
/// or the length when there is none.
pub open spec fn first_repeat(s: Seq<char>, from: int) -> int
    decreases s.len() - from,
{
    if from >= s.len() {
        s.len() as int
    } else if s.take(from).contains(s[from]) {
        from
    } else {
        first_repeat(s, from + 1)
    }
}

/// A character set that a policy accepts.
pub open spec fn is_charset(s: Seq<char>) -> bool {
    &&& 0 < s.len() <= MAX_CHARSET_LEN
    &&& all_label_chars(s)
    &&& s.no_duplicates()
}

/// Why a character set is refused.
pub open spec fn charset_fault(s: Seq<char>, role: Seq<char>) -> Option<Seq<char>> {
    if s.len() == 0 {
        Some(role + " charset is empty"@)
    } else if s.len() > MAX_CHARSET_LEN {
        Some(role + " charset exceeds "@ + text::decimal(MAX_CHARSET_LEN as nat) + " chars"@)
    } else if !all_label_chars(s) {
        Some(role + " charset must be [a-z0-9]"@)
    } else if first_repeat(s, 0) < s.len() {
        Some(role + " charset has duplicate '"@ + seq![s[first_repeat(s, 0)]] + "'"@)
    } else {
        None
    }
}

proof fn lemma_first_repeat(s: Seq<char>, from: int)
    requires
        0 <= from <= s.len(),
        s.take(from).no_duplicates(),
    ensures
        from <= first_repeat(s, from) <= s.len(),
        first_repeat(s, from) == s.len() ==> s.no_duplicates(),
        first_repeat(s, from) < s.len() ==> !s.no_duplicates(),
    decreases s.len() - from,
{
    if from == s.len() {
        assert(s.take(from) =~= s);
    } else if s.take(from).contains(s[from]) {
        let j = choose|j: int| 0 <= j < from && s.take(from)[j] == s[from];
        assert(s[j] == s[from]);
    } else {
        let more = s.take(from + 1);
        assert forall|i: int, j: int| 0 <= i < more.len() && 0 <= j < more.len() && i
            != j implies more[i] != more[j] by {
            if i < from && j < from {
                assert(s.take(from)[i] != s.take(from)[j]);
            } else if i < from {
                assert(s.take(from)[i] == more[i]);
            } else {
                assert(s.take(from)[j] == more[j]);
            }
        }
        lemma_first_repeat(s, from + 1);
    }
}

/// A character set is accepted exactly when it has no fault.
pub proof fn charsets_are_the_faultless(s: Seq<char>, role: Seq<char>)
    ensures
        charset_fault(s, role) is None <==> is_charset(s),
{
    lemma_first_repeat(s, 0);
}

/// Reads one character set.
fn validate_charset(raw: &str, role: &str) -> (r: Result<Vec<char>, LabelError>)
    ensures
        match r {
            Ok(chars) => charset_fault(raw@, role@) is None && chars@ == raw@,
            Err(LabelError::InvalidCharset(detail)) => charset_fault(raw@, role@) == Some(detail@),
            Err(_) => false,
        },
{
    let chars: Vec<char> = text::chars_of(raw);
    if chars.len() == 0 {
        return Err(LabelError::InvalidCharset(text::joined(role, " charset is empty")));
    }
    if chars.len() > MAX_CHARSET_LEN {
        let mut detail = text::joined(role, " charset exceeds ");
        text::push_decimal(&mut detail, MAX_CHARSET_LEN as u64);
        text::push_text(&mut detail, " chars");
        return Err(LabelError::InvalidCharset(detail));
    }
    let mut i: usize = 0;
    while i < chars.len()
        invariant
            0 <= i <= chars.len(),
            0 < chars.len() <= MAX_CHARSET_LEN,
            chars@ == raw@,
            forall|j: int| 0 <= j < i ==> is_label_char(#[trigger] chars@[j]),
        decreases chars.len() - i,
    {
        let c = chars[i];
        if !('a' <= c && c <= 'z' || '0' <= c && c <= '9') {
            assert(!is_label_char(chars@[i as int]));
            return Err(LabelError::InvalidCharset(text::joined(role, " charset must be [a-z0-9]")));
        }
        i = i + 1;
    }
    let mut k: usize = 0;
    while k < chars.len()
        invariant
            0 <= k <= chars.len(),
            0 < chars.len() <= MAX_CHARSET_LEN,
            chars@ == raw@,
            all_label_chars(raw@),
            first_repeat(raw@, 0) == first_repeat(raw@, k as int),
        decreases chars.len() - k,
    {
        let mut j: usize = 0;
        while j < k
            invariant
                0 <= j <= k < chars.len(),
                0 < chars.len() <= MAX_CHARSET_LEN,
                chars@ == raw@,
                all_label_chars(raw@),
                first_repeat(raw@, 0) == first_repeat(raw@, k as int),
                forall|m: int| 0 <= m < j ==> chars@[m] != chars@[k as int],
            decreases k - j,
        {
            if chars[j] == chars[k] {
                assert(raw@.take(k as int)[j as int] == raw@[k as int]);
                let mut detail = text::joined(role, " charset has duplicate '");
                let ghost before = detail@;
                detail.push(chars[k]);
                text::push_text(&mut detail, "'");
                assert(detail@ =~= before + seq![raw@[k as int]] + "'"@);
                return Err(LabelError::InvalidCharset(detail));
            }
            j = j + 1;
        }
        assert(!raw@.take(k as int).contains(raw@[k as int]));
        k = k + 1;
    }
    Ok(chars)
}

/// The number of characters in the left half of a home row.
pub open spec fn left_len(home: nat) -> nat {
    if home / 2 > 1 {
        home / 2
    } else {
        1
    }
}

/// The character sets that labels are made of.
#[derive(Debug, PartialEq, Eq)]
pub struct LabelPolicy {
    home: Vec<char>,
    overflow: Vec<char>,
}

impl LabelPolicy {
    /// The home row.
    pub closed spec fn home_chars(self) -> Seq<char> {
        self.home@
    }

    /// The second characters of two-character labels.
    pub closed spec fn overflow_chars(self) -> Seq<char> {
        self.overflow@
    }

    /// Both character sets are acceptable.
    pub open spec fn wf(self) -> bool {
        is_charset(self.home_chars()) && is_charset(self.overflow_chars())
    }

    /// The characters of the left hand.
    pub open spec fn left_chars(self) -> Seq<char> {
        self.home_chars().take(left_len(self.home_chars().len()) as int)
    }

    /// The characters of the right hand: the rest of the home row, or all of it
    /// when it is a single character.
    pub open spec fn right_chars(self) -> Seq<char> {
        if self.home_chars().len() <= 1 {
            self.home_chars()
        } else {
            self.home_chars().skip(left_len(self.home_chars().len()) as int)
        }
    }

    /// The characters of a side.
    pub open spec fn side_chars(self, left: bool) -> Seq<char> {
        if left {
            self.left_chars()
        } else {
            self.right_chars()
        }
    }

    /// Builds a policy from two character sets; the home row is checked first.
    pub fn new(home: &str, overflow: &str) -> (r: Result<Self, LabelError>)
        ensures
            match r {
                Ok(policy) => is_charset(home@) && is_charset(overflow@) && policy.wf()
                    && policy.home_chars() == home@ && policy.overflow_chars() == overflow@,
                Err(LabelError::InvalidCharset(detail)) => if !is_charset(home@) {
                    charset_fault(home@, "home"@) == Some(detail@)
                } else {
                    !is_charset(overflow@) && charset_fault(overflow@, "overflow"@) == Some(detail@)
                },
                Err(_) => false,
            },
    {
        proof {
            charsets_are_the_faultless(home@, "home"@);
            charsets_are_the_faultless(overflow@, "overflow"@);
        }
        let home = match validate_charset(home, "home") {
            Ok(chars) => chars,
            Err(e) => return Err(e),
        };
        let overflow = match validate_charset(overflow, "overflow") {
            Ok(chars) => chars,
            Err(e) => return Err(e),
        };
        Ok(Self { home, overflow })
    }

    /// The policy whose two character sets are [`DEFAULT_HOME_CHARSET`].
    #[must_use]
    pub fn default_policy() -> (policy: Self)
        ensures
            policy.wf(),
            policy.home_chars() == DEFAULT_HOME_CHARSET@,
            policy.overflow_chars() == DEFAULT_HOME_CHARSET@,
    {
        proof {
            reveal_strlit("asdfghjkl");
        }
        Self {
            home: text::chars_of(DEFAULT_HOME_CHARSET),
            overflow: text::chars_of(DEFAULT_HOME_CHARSET),
        }
    }

    /// The home row.
    #[must_use]
    pub fn home(&self) -> (chars: &[char])
        ensures
            chars@ == self.home_chars(),
    {
        self.home.as_slice()
    }

    /// The second characters of two-character labels.
    #[must_use]
    pub fn overflow(&self) -> (chars: &[char])
        ensures
            chars@ == self.overflow_chars(),
    {
        self.overflow.as_slice()
    }

    /// The characters of the left hand: the first half of the home row, at
    /// least one.
    #[must_use]
    pub fn left_pool(&self) -> (chars: &[char])
        requires
            self.wf(),
        ensures
            chars@ == self.left_chars(),
    {
        let half: usize = self.home.len() / 2;
        let mid: usize = if half > 1 {
            half
        } else {
            1
        };
        let chars = slice_subrange(self.home.as_slice(), 0, mid);
        assert(chars@ =~= self.left_chars());
        chars
    }

    /// The characters of the right hand: the second half of the home row, or
    /// all of a single-character row.
    #[must_use]
    pub fn right_pool(&self) -> (chars: &[char])
        requires
            self.wf(),
        ensures
            chars@ == self.right_chars(),
    {
        if self.home.len() <= 1 {
            return self.home.as_slice();
        }
        let half: usize = self.home.len() / 2;
        let mid: usize = if half > 1 {
            half
        } else {
            1
        };
        let chars = slice_subrange(self.home.as_slice(), mid, self.home.len());
        assert(chars@ =~= self.right_chars());
        chars
    }
}

impl Default for LabelPolicy {
    fn default() -> (policy: Self)
        ensures
            policy.wf(),
            policy.home_chars() == DEFAULT_HOME_CHARSET@,
            policy.overflow_chars() == DEFAULT_HOME_CHARSET@,
    {
        Self::default_policy()
    }
}

impl Clone for LabelPolicy {
    fn clone(&self) -> (policy: Self)
        ensures
            policy.home_chars() == self.home_chars(),
            policy.overflow_chars() == self.overflow_chars(),
    {
        let policy = Self { home: self.home.clone(), overflow: self.overflow.clone() };
        assert(policy.home@ =~= self.home@);
        assert(policy.overflow@ =~= self.overflow@);
        policy
    }
}

/// Whether an anchor stands left of the center of the viewport.
pub open spec fn is_left(anchor: Point, viewport_width: u16) -> bool {
    anchor.x * 2 < viewport_width
}

/// Whether anchor `i` is served before anchor `j`: by row, then column, then
/// input order.
pub open spec fn precedes(anchors: Seq<Point>, i: int, j: int) -> bool {
    let (a, b) = (anchors[i], anchors[j]);
    a.y < b.y || (a.y == b.y && (a.x < b.x || (a.x == b.x && i < j)))
}

/// How many of the first `n` anchors stand on a side.
pub open spec fn side_count(anchors: Seq<Point>, viewport_width: u16, left: bool, n: int) -> nat
    decreases n,
{
    if n <= 0 {
        0
    } else {
        side_count(anchors, viewport_width, left, n - 1) + if is_left(
            anchors[n - 1],
            viewport_width,
        ) == left {
            1nat
        } else {
            0nat
        }
    }
}

/// How many of the first `n` anchors stand on the side of anchor `i` and are
/// served before it.
pub open spec fn rank_among(anchors: Seq<Point>, viewport_width: u16, i: int, n: int) -> nat
    decreases n,
{
    if n <= 0 {
        0
    } else {
        rank_among(anchors, viewport_width, i, n - 1) + if is_left(anchors[n - 1], viewport_width)
            == is_left(anchors[i], viewport_width) && precedes(anchors, n - 1, i) {
            1nat
        } else {
            0nat
        }
    }
}

/// The turn at which anchor `i` is served on its side.
pub open spec fn rank(anchors: Seq<Point>, viewport_width: u16, i: int) -> nat {
    rank_among(anchors, viewport_width, i, anchors.len() as int)
}

/// How many labels a side can serve: one for each character and one for each
/// pair with a second character.
pub open spec fn side_space(pool: nat, overflow: nat) -> nat {
    pool + pool * overflow
}

/// The label served at turn `k`: single characters first, then pairs, the first
/// character outermost.
pub open spec fn label_at(pool: Seq<char>, overflow: Seq<char>, k: int) -> Seq<char> {
    if k < pool.len() {
        seq![pool[k]]
    } else {
        seq![
            pool[(k - pool.len()) / (overflow.len() as int)],
            overflow[(k - pool.len()) % (overflow.len() as int)],
        ]
    }
}

/// Whether both hands draw from the same characters: the home row is a single
/// one.
pub open spec fn is_shared(policy: LabelPolicy) -> bool {
    policy.home_chars().len() == 1
}

/// The turn at which anchor `i` draws from its characters. Where both hands
/// share them, the left side is served before the right one.
pub open spec fn turn(
    policy: LabelPolicy,
    anchors: Seq<Point>,
    viewport_width: u16,
    i: int,
) -> nat {
    rank(anchors, viewport_width, i) + if is_shared(policy) && !is_left(
        anchors[i],
        viewport_width,
    ) {
        side_count(anchors, viewport_width, true, anchors.len() as int)
    } else {
        0
    }
}

/// How many labels the characters of a side have to serve: one for each anchor
/// of the side, or of both sides where they share them.
pub open spec fn demand(
    policy: LabelPolicy,
    anchors: Seq<Point>,
    viewport_width: u16,
    left: bool,
) -> nat {
    if is_shared(policy) {
        anchors.len()
    } else {
        side_count(anchors, viewport_width, left, anchors.len() as int)
    }
}

/// The label of anchor `i`.
pub open spec fn label_of(
    policy: LabelPolicy,
    anchors: Seq<Point>,
    viewport_width: u16,
    i: int,
) -> Seq<char> {
    label_at(
        policy.side_chars(is_left(anchors[i], viewport_width)),
        policy.overflow_chars(),
        turn(policy, anchors, viewport_width, i) as int,
    )
}

/// How many labels a side of a policy can serve.
pub open spec fn space_of(policy: LabelPolicy, left: bool) -> nat {
    side_space(policy.side_chars(left).len(), policy.overflow_chars().len())
}

/// Whether a side asks for more labels than it has.
pub open spec fn overflows(
    policy: LabelPolicy,
    anchors: Seq<Point>,
    viewport_width: u16,
    left: bool,
) -> bool {
    demand(policy, anchors, viewport_width, left) > space_of(policy, left)
}

/// Why a session gets no labels.
pub open spec fn session_fault(
    policy: LabelPolicy,
    anchors: Seq<Point>,
    viewport_width: u16,
) -> Option<(nat, nat)> {
    let n = anchors.len() as int;
    if n > MAX_BEACON_TARGETS {
        Some((anchors.len(), space_of(policy, true) + space_of(policy, false)))
    } else if overflows(policy, anchors, viewport_width, true) {
        Some((demand(policy, anchors, viewport_width, true), space_of(policy, true)))
    } else if overflows(policy, anchors, viewport_width, false) {
        Some((demand(policy, anchors, viewport_width, false), space_of(policy, false)))
    } else {
        None
    }
}

proof fn lemma_space(policy: LabelPolicy, left: bool)
    requires
        policy.wf(),
    ensures
        1 <= policy.side_chars(left).len() <= MAX_CHARSET_LEN,
        space_of(policy, left) <= MAX_CHARSET_LEN + MAX_CHARSET_LEN * MAX_CHARSET_LEN,
        policy.side_chars(left).len() * policy.overflow_chars().len() <= MAX_CHARSET_LEN
            * MAX_CHARSET_LEN,
        policy.side_chars(left).no_duplicates(),
{
    let p = policy.side_chars(left).len();
    let q = policy.overflow_chars().len();
    assert(p * q <= 64 * 64) by (nonlinear_arith)
        requires
            p <= 64,
            q <= 64,
    ;
}

proof fn lemma_side_count(anchors: Seq<Point>, viewport_width: u16, left: bool, n: int)
    requires
        0 <= n <= anchors.len(),
    ensures
        side_count(anchors, viewport_width, left, n) <= n,
    decreases n,
{
    if n > 0 {
        lemma_side_count(anchors, viewport_width, left, n - 1);
    }
}

proof fn lemma_rank_below_count(anchors: Seq<Point>, viewport_width: u16, i: int, n: int)
    requires
        0 <= i < anchors.len(),
        0 <= n <= anchors.len(),
    ensures
        rank_among(anchors, viewport_width, i, n) + (if i < n {
            1nat
        } else {
            0nat
        }) <= side_count(anchors, viewport_width, is_left(anchors[i], viewport_width), n),
    decreases n,
{
    if n > 0 {
        lemma_rank_below_count(anchors, viewport_width, i, n - 1);
    }
}

proof fn lemma_rank_order(anchors: Seq<Point>, viewport_width: u16, i: int, j: int, n: int)
    requires
        0 <= i < anchors.len(),
        0 <= j < anchors.len(),
        0 <= n <= anchors.len(),
        is_left(anchors[i], viewport_width) == is_left(anchors[j], viewport_width),
        precedes(anchors, i, j),
    ensures
        rank_among(anchors, viewport_width, i, n) + (if i < n {
            1nat
        } else {
            0nat
        }) <= rank_among(anchors, viewport_width, j, n),
    decreases n,
{
    if n > 0 {
        lemma_rank_order(anchors, viewport_width, i, j, n - 1);
    }
}

/// Two anchors of one side are served at different turns, the earlier one
/// first.
pub proof fn anchors_are_served_in_order(
    anchors: Seq<Point>,
    viewport_width: u16,
    i: int,
    j: int,
)
    requires
        0 <= i < anchors.len(),
        0 <= j < anchors.len(),
        i != j,
        is_left(anchors[i], viewport_width) == is_left(anchors[j], viewport_width),
    ensures
        precedes(anchors, i, j) || precedes(anchors, j, i),
        precedes(anchors, i, j) <==> rank(anchors, viewport_width, i) < rank(
            anchors,
            viewport_width,
            j,
        ),
        rank(anchors, viewport_width, i) != rank(anchors, viewport_width, j),
{
    if precedes(anchors, i, j) {
        lemma_rank_order(anchors, viewport_width, i, j, anchors.len() as int);
    } else {
        lemma_rank_order(anchors, viewport_width, j, i, anchors.len() as int);
    }
}

proof fn lemma_label_parts(pool: Seq<char>, overflow: Seq<char>, k: int)
    requires
        pool.len() > 0,
        overflow.len() > 0,
        0 <= k < side_space(pool.len(), overflow.len()),
        k >= pool.len(),
    ensures
        0 <= (k - pool.len()) / (overflow.len() as int) < pool.len(),
        0 <= (k - pool.len()) % (overflow.len() as int) < overflow.len(),
        k - pool.len() == overflow.len() * ((k - pool.len()) / (overflow.len() as int)) + (k
            - pool.len()) % (overflow.len() as int),
{
    let m = k - pool.len();
    let q = overflow.len() as int;
    let p = pool.len() as int;
    vstd::arithmetic::div_mod::lemma_fundamental_div_mod(m, q);
    assert(0 <= m / q < p && 0 <= m % q < q) by (nonlinear_arith)
        requires
            q > 0,
            0 <= m < p * q,
    ;
}

/// The labels of one side are all different, and each starts with a character
/// of the side.
pub proof fn labels_of_a_side_differ(pool: Seq<char>, overflow: Seq<char>, k: int, m: int)
    requires
        pool.len() > 0,
        overflow.len() > 0,
        pool.no_duplicates(),
        overflow.no_duplicates(),
        0 <= k < side_space(pool.len(), overflow.len()),
        0 <= m < side_space(pool.len(), overflow.len()),
        k != m,
    ensures
        label_at(pool, overflow, k) != label_at(pool, overflow, m),
        pool.contains(label_at(pool, overflow, k)[0]),
{
    let a = label_at(pool, overflow, k);
    let b = label_at(pool, overflow, m);
    if k >= pool.len() {
        lemma_label_parts(pool, overflow, k);
    }
    if m >= pool.len() {
        lemma_label_parts(pool, overflow, m);
    }
    if k < pool.len() {
        assert(a.len() == 1 && a[0] == pool[k]);
        if m < pool.len() {
            assert(b[0] == pool[m]);
        } else {
            assert(b.len() == 2);
        }
    } else if m < pool.len() {
        assert(b.len() == 1 && a.len() == 2);
    } else {
        assert(a[0] == pool[(k - pool.len()) / (overflow.len() as int)]);
        assert(b[0] == pool[(m - pool.len()) / (overflow.len() as int)]);
        assert(a[1] == overflow[(k - pool.len()) % (overflow.len() as int)]);
        assert(b[1] == overflow[(m - pool.len()) % (overflow.len() as int)]);
    }
}

proof fn lemma_sides_add_up(anchors: Seq<Point>, viewport_width: u16, n: int)
    requires
        0 <= n <= anchors.len(),
    ensures
        side_count(anchors, viewport_width, true, n) + side_count(
            anchors,
            viewport_width,
            false,
            n,
        ) == n,
    decreases n,
{
    if n > 0 {
        lemma_sides_add_up(anchors, viewport_width, n - 1);
    }
}

proof fn lemma_turn(policy: LabelPolicy, anchors: Seq<Point>, viewport_width: u16, i: int)
    requires
        0 <= i < anchors.len(),
    ensures
        turn(policy, anchors, viewport_width, i) < demand(
            policy,
            anchors,
            viewport_width,
            is_left(anchors[i], viewport_width),
        ),
{
    lemma_rank_below_count(anchors, viewport_width, i, anchors.len() as int);
    lemma_sides_add_up(anchors, viewport_width, anchors.len() as int);
}

/// Every label has one or two characters.
pub proof fn labels_are_short(
    policy: LabelPolicy,
    anchors: Seq<Point>,
    viewport_width: u16,
    i: int,
)
    ensures
        1 <= label_of(policy, anchors, viewport_width, i).len() <= 2,
{
}

/// Every session that gets labels gets a different one for each anchor.
pub proof fn labels_are_unique(
    policy: LabelPolicy,
    anchors: Seq<Point>,
    viewport_width: u16,
    i: int,
    j: int,
)
    requires
        policy.wf(),
        session_fault(policy, anchors, viewport_width) is None,
        0 <= i < anchors.len(),
        0 <= j < anchors.len(),
        i != j,
    ensures
        label_of(policy, anchors, viewport_width, i) != label_of(
            policy,
            anchors,
            viewport_width,
            j,
        ),
{
    let n = anchors.len() as int;
    let left_i = is_left(anchors[i], viewport_width);
    let left_j = is_left(anchors[j], viewport_width);
    let overflow = policy.overflow_chars();
    lemma_rank_below_count(anchors, viewport_width, i, n);
    lemma_rank_below_count(anchors, viewport_width, j, n);
    lemma_turn(policy, anchors, viewport_width, i);
    lemma_turn(policy, anchors, viewport_width, j);
    lemma_space(policy, left_i);
    lemma_space(policy, left_j);
    let (k, m) = (
        turn(policy, anchors, viewport_width, i) as int,
        turn(policy, anchors, viewport_width, j) as int,
    );
    if left_i == left_j {
        anchors_are_served_in_order(anchors, viewport_width, i, j);
        labels_of_a_side_differ(policy.side_chars(left_i), overflow, k, m);
    } else if is_shared(policy) {
        assert(policy.left_chars() =~= policy.right_chars());
        labels_of_a_side_differ(policy.left_chars(), overflow, k, m);
    } else {
        lemma_first_char(policy.side_chars(left_i), overflow, k);
        lemma_first_char(policy.side_chars(left_j), overflow, m);
        let home = policy.home_chars();
        let mid = left_len(home.len()) as int;
        let a = choose|a: int|
            0 <= a < policy.left_chars().len() && policy.left_chars()[a] == label_of(
                policy,
                anchors,
                viewport_width,
                if left_i { i } else { j },
            )[0];
        let b = choose|b: int|
            0 <= b < policy.right_chars().len() && policy.right_chars()[b] == label_of(
                policy,
                anchors,
                viewport_width,
                if left_i { j } else { i },
            )[0];
        assert(home[a] != home[mid + b]);
    }
}

/// A character set holds one to sixty-four lower case letters and digits, none
/// of them twice.
pub proof fn charsets_are_letters_and_digits(s: Seq<char>)
    ensures
        is_charset(s) == (1 <= s.len() <= 64 && s.no_duplicates() && forall|i: int|
            0 <= i < s.len() ==> 'a' <= #[trigger] s[i] <= 'z' || '0' <= s[i] <= '9'),
{
    if is_charset(s) {
        assert forall|i: int| 0 <= i < s.len() implies 'a' <= #[trigger] s[i] <= 'z' || '0' <= s[i]
            <= '9' by {
            assert(is_label_char(s[i]));
        }
    }
    if forall|i: int| 0 <= i < s.len() ==> 'a' <= #[trigger] s[i] <= 'z' || '0' <= s[i] <= '9' {
        assert(all_label_chars(s));
    }
}

/// The anchors, among the first `n`, with columns on one half of the viewport:
/// those whose doubled column is below the width, or the others.
spec fn on_half(anchors: Seq<Point>, viewport_width: u16, left: bool, n: int) -> Set<int> {
    Set::new(|j: int| 0 <= j < n && (2 * anchors[j].x < viewport_width) == left)
}

/// The anchors, among the first `n`, on the half of anchor `i` that stand in a
/// row above it, or left of it in its row, or in its cell and before it.
spec fn ahead_of(anchors: Seq<Point>, viewport_width: u16, i: int, n: int) -> Set<int> {
    Set::new(
        |j: int|
            0 <= j < n && (2 * anchors[j].x < viewport_width) == (2 * anchors[i].x < viewport_width)
                && (anchors[j].y < anchors[i].y || (anchors[j].y == anchors[i].y && (anchors[j].x
                < anchors[i].x || (anchors[j].x == anchors[i].x && j < i)))),
    )
}

proof fn lemma_half_is_side(anchors: Seq<Point>, viewport_width: u16, left: bool, n: int)
    requires
        0 <= n <= anchors.len(),
    ensures
        on_half(anchors, viewport_width, left, n).finite(),
        on_half(anchors, viewport_width, left, n).len() == side_count(
            anchors,
            viewport_width,
            left,
            n,
        ),
    decreases n,
{
    let all = on_half(anchors, viewport_width, left, n);
    if n == 0 {
        assert(all =~= Set::empty());
    } else {
        lemma_half_is_side(anchors, viewport_width, left, n - 1);
        let before = on_half(anchors, viewport_width, left, n - 1);
        if is_left(anchors[n - 1], viewport_width) == left {
            assert(all =~= before.insert(n - 1));
        } else {
            assert(all =~= before);
        }
    }
}

proof fn lemma_ahead_is_rank(anchors: Seq<Point>, viewport_width: u16, i: int, n: int)
    requires
        0 <= n <= anchors.len(),
    ensures
        ahead_of(anchors, viewport_width, i, n).finite(),
        ahead_of(anchors, viewport_width, i, n).len() == rank_among(
            anchors,
            viewport_width,
            i,
            n,
        ),
    decreases n,
{
    let all = ahead_of(anchors, viewport_width, i, n);
    if n == 0 {
        assert(all =~= Set::empty());
    } else {
        lemma_ahead_is_rank(anchors, viewport_width, i, n - 1);
        let before = ahead_of(anchors, viewport_width, i, n - 1);
        if is_left(anchors[n - 1], viewport_width) == is_left(anchors[i], viewport_width)
            && precedes(anchors, n - 1, i) {
            assert(all =~= before.insert(n - 1));
        } else {
            assert(all =~= before);
        }
    }
}

/// A label starts with a character of the hand that its anchor is on: of the
/// first half of the home row when twice the column is below the width of the
/// viewport, and of the second half otherwise.
pub proof fn labels_start_on_their_hand(
    policy: LabelPolicy,
    anchors: Seq<Point>,
    viewport_width: u16,
    i: int,
    k: int,
)
    requires
        policy.wf(),
        session_fault(policy, anchors, viewport_width) is None,
        0 <= i < anchors.len(),
        policy.home_chars().len() >= 2,
    ensures
        ({
            let home = policy.home_chars();
            let start = label_of(policy, anchors, viewport_width, i)[0];
            &&& home.contains(start)
            &&& 0 <= k < home.len() && home[k] == start ==> (k < home.len() / 2) == (2
                * anchors[i].x < viewport_width)
        }),
{
    let home = policy.home_chars();
    let left = is_left(anchors[i], viewport_width);
    let pool = policy.side_chars(left);
    let t = turn(policy, anchors, viewport_width, i) as int;
    lemma_turn(policy, anchors, viewport_width, i);
    lemma_space(policy, left);
    lemma_first_char(pool, policy.overflow_chars(), t);
    let start = label_of(policy, anchors, viewport_width, i)[0];
    let a = choose|a: int| 0 <= a < pool.len() && pool[a] == start;
    let mid = left_len(home.len()) as int;
    assert(mid == home.len() / 2);
    assert(home[if left { a } else { mid + a }] == start);
}

/// The labels of a hand are given out by row and column: an anchor with `k`
/// anchors of its half ahead of it has the `k`-th label of the hand. These are the
/// characters of the hand, then each of them with each second character. Where
/// the home row is a single character both halves use it, the left one first.
pub proof fn labels_go_by_row_and_column(
    policy: LabelPolicy,
    anchors: Seq<Point>,
    viewport_width: u16,
    i: int,
)
    requires
        policy.wf(),
        0 <= i < anchors.len(),
    ensures
        ({
            let home = policy.home_chars();
            let second = policy.overflow_chars();
            let n = anchors.len() as int;
            let label = label_of(policy, anchors, viewport_width, i);
            let left = 2 * anchors[i].x < viewport_width;
            let k = Set::new(
                |j: int|
                    0 <= j < n && (2 * anchors[j].x < viewport_width) == left && (anchors[j].y
                        < anchors[i].y || (anchors[j].y == anchors[i].y && (anchors[j].x
                        < anchors[i].x || (anchors[j].x == anchors[i].x && j < i)))),
            ).len() as int;
            let from = if left {
                0
            } else {
                home.len() as int / 2
            };
            let size = if left {
                home.len() as int / 2
            } else {
                home.len() - home.len() as int / 2
            };
            let turn = k + (if left {
                0
            } else {
                Set::new(|j: int| 0 <= j < n && 2 * anchors[j].x < viewport_width).len() as int
            });
            &&& home.len() >= 2 && k < size ==> label == seq![home[from + k]]
            &&& home.len() >= 2 && k >= size ==> label == seq![
                home[from + (k - size) / (second.len() as int)],
                second[(k - size) % (second.len() as int)],
            ] || session_fault(policy, anchors, viewport_width) is Some
            &&& home.len() == 1 && turn == 0 ==> label == seq![home[0]]
            &&& home.len() == 1 && turn > 0 ==> label == seq![home[0], second[turn - 1]]
                || session_fault(policy, anchors, viewport_width) is Some
        }),
{
    let n = anchors.len() as int;
    let home = policy.home_chars();
    let second = policy.overflow_chars();
    let left = is_left(anchors[i], viewport_width);
    lemma_ahead_is_rank(anchors, viewport_width, i, n);
    lemma_half_is_side(anchors, viewport_width, true, n);
    let west = 2 * anchors[i].x < viewport_width;
    assert(ahead_of(anchors, viewport_width, i, n) =~= Set::new(
        |j: int|
            0 <= j < n && (2 * anchors[j].x < viewport_width) == west && (anchors[j].y
                < anchors[i].y || (anchors[j].y == anchors[i].y && (anchors[j].x < anchors[i].x || (
            anchors[j].x == anchors[i].x && j < i)))),
    ));
    assert(on_half(anchors, viewport_width, true, n) =~= Set::new(
        |j: int| 0 <= j < n && 2 * anchors[j].x < viewport_width,
    ));
    lemma_turn(policy, anchors, viewport_width, i);
    lemma_space(policy, left);
    let pool = policy.side_chars(left);
    let t = turn(policy, anchors, viewport_width, i) as int;
    if session_fault(policy, anchors, viewport_width) is None {
        if t >= pool.len() {
            lemma_label_parts(pool, second, t);
        }
        if home.len() == 1 && t > 0 {
            assert(pool.len() == 1);
            assert((t - 1) / (second.len() as int) == 0 && (t - 1) % (second.len() as int) == t - 1)
                by {
                assert(1 * second.len() == second.len());
                assert(t - 1 < second.len());
                vstd::arithmetic::div_mod::lemma_basic_div(t - 1, second.len() as int);
                vstd::arithmetic::div_mod::lemma_small_mod((t - 1) as nat, second.len());
            }
        }
    }
}

/// A session gets its labels exactly when there are at most 1024 anchors and
/// neither hand has more of them than its characters and their pairs.
pub proof fn sessions_fit_their_hands(
    policy: LabelPolicy,
    anchors: Seq<Point>,
    viewport_width: u16,
)
    requires
        policy.wf(),
    ensures
        ({
            let home = policy.home_chars().len();
            let pairs = policy.overflow_chars().len() + 1;
            let n = anchors.len() as int;
            let fits = session_fault(policy, anchors, viewport_width) is None;
            &&& home >= 2 ==> fits == (n <= 1024 && Set::new(
                |j: int| 0 <= j < n && 2 * anchors[j].x < viewport_width,
            ).len() <= (home / 2) * pairs && Set::new(
                |j: int| 0 <= j < n && 2 * anchors[j].x >= viewport_width,
            ).len() <= (home - home / 2) * pairs)
            &&& home == 1 ==> fits == (n <= 1024 && n <= pairs)
        }),
{
    let n = anchors.len() as int;
    let home = policy.home_chars().len();
    let more = policy.overflow_chars().len();
    lemma_half_is_side(anchors, viewport_width, true, n);
    lemma_half_is_side(anchors, viewport_width, false, n);
    assert(on_half(anchors, viewport_width, true, n) =~= Set::new(
        |j: int| 0 <= j < n && 2 * anchors[j].x < viewport_width,
    ));
    assert(on_half(anchors, viewport_width, false, n) =~= Set::new(
        |j: int| 0 <= j < n && 2 * anchors[j].x >= viewport_width,
    ));
    let a = policy.left_chars().len();
    let b = policy.right_chars().len();
    assert(a + a * more == a * (more + 1)) by (nonlinear_arith);
    assert(b + b * more == b * (more + 1)) by (nonlinear_arith);
    assert(1 * (more + 1) == more + 1);
}

proof fn lemma_first_char(pool: Seq<char>, overflow: Seq<char>, k: int)
    requires
        pool.len() > 0,
        overflow.len() > 0,
        0 <= k < side_space(pool.len(), overflow.len()),
    ensures
        pool.contains(label_at(pool, overflow, k)[0]),
{
    if k >= pool.len() {
        lemma_label_parts(pool, overflow, k);
    }
}

/// Labels that a side can serve.
fn side_capacity(pool_len: usize, overflow_len: usize) -> (n: usize)
    requires
        pool_len <= MAX_CHARSET_LEN,
        overflow_len <= MAX_CHARSET_LEN,
    ensures
        n == side_space(pool_len as nat, overflow_len as nat),
{
    assert(pool_len * overflow_len <= 64 * 64) by (nonlinear_arith)
        requires
            pool_len <= 64,
            overflow_len <= 64,
    ;
    pool_len + pool_len * overflow_len
}

/// The first `count` labels of a side.
fn side_labels(pool: &[char], overflow: &[char], count: usize) -> (r: Result<
    Vec<String>,
    LabelError,
>)
    requires
        0 < pool@.len() <= MAX_CHARSET_LEN,
        0 < overflow@.len() <= MAX_CHARSET_LEN,
    ensures
        match r {
            Ok(labels) => count <= side_space(pool@.len(), overflow@.len()) && labels@.len()
                == count && forall|k: int|
                0 <= k < count ==> (#[trigger] labels@[k])@ == label_at(pool@, overflow@, k),
            Err(e) => count > side_space(pool@.len(), overflow@.len()) && e == (
            LabelError::TooManyTargets {
                requested: count,
                capacity: side_space(pool@.len(), overflow@.len()) as usize,
            }),
        },
{
    let capacity: usize = side_capacity(pool.len(), overflow.len());
    if count > capacity {
        return Err(LabelError::TooManyTargets { requested: count, capacity });
    }
    let mut labels: Vec<String> = Vec::new();
    while labels.len() < count
        invariant
            0 < pool@.len() <= MAX_CHARSET_LEN,
            0 < overflow@.len() <= MAX_CHARSET_LEN,
            count <= side_space(pool@.len(), overflow@.len()),
            labels@.len() <= count,
            forall|k: int|
                0 <= k < labels@.len() ==> (#[trigger] labels@[k])@ == label_at(
                    pool@,
                    overflow@,
                    k,
                ),
        decreases count - labels.len(),
    {
        let k: usize = labels.len();
        let mut label = String::new();
        if k < pool.len() {
            label.push(pool[k]);
        } else {
            let m: usize = k - pool.len();
            proof {
                lemma_label_parts(pool@, overflow@, k as int);
            }
            label.push(pool[m / overflow.len()]);
            label.push(overflow[m % overflow.len()]);
        }
        assert(label@ =~= label_at(pool@, overflow@, k as int));
        labels.push(label);
    }
    Ok(labels)
}

/// Allocates hint labels from a policy.
#[derive(Debug)]
pub struct LabelAllocator {
    policy: LabelPolicy,
}

impl LabelAllocator {
    /// The policy in force.
    pub closed spec fn rules(self) -> LabelPolicy {
        self.policy
    }

    /// The policy is well formed.
    pub open spec fn wf(self) -> bool {
        self.rules().wf()
    }

    /// Creates an allocator.
    #[must_use]
    pub fn new(policy: LabelPolicy) -> (allocator: Self)
        ensures
            allocator.rules() == policy,
    {
        Self { policy }
    }

    /// The policy in force.
    #[must_use]
    pub fn policy(&self) -> (policy: &LabelPolicy)
        ensures
            *policy == self.rules(),
    {
        &self.policy
    }

    fn count_side(anchors: &[Point], viewport_width: u16, left: bool) -> (n: usize)
        ensures
            n == side_count(anchors@, viewport_width, left, anchors@.len() as int),
    {
        let mut n: usize = 0;
        let mut i: usize = 0;
        while i < anchors.len()
            invariant
                0 <= i <= anchors.len(),
                n == side_count(anchors@, viewport_width, left, i as int),
                n <= i,
            decreases anchors.len() - i,
        {
            if ((anchors[i].x as u32) * 2 < viewport_width as u32) == left {
                n = n + 1;
            }
            i = i + 1;
        }
        n
    }

    fn rank_of(anchors: &[Point], viewport_width: u16, i: usize) -> (k: usize)
        requires
            i < anchors@.len(),
        ensures
            k == rank(anchors@, viewport_width, i as int),
    {
        let left = (anchors[i].x as u32) * 2 < viewport_width as u32;
        let mut k: usize = 0;
        let mut j: usize = 0;
        while j < anchors.len()
            invariant
                0 <= j <= anchors.len(),
                i < anchors@.len(),
                left == is_left(anchors@[i as int], viewport_width),
                k == rank_among(anchors@, viewport_width, i as int, j as int),
                k <= j,
            decreases anchors.len() - j,
        {
            let (a, b) = (anchors[j], anchors[i]);
            if ((a.x as u32) * 2 < viewport_width as u32) == left && (a.y < b.y || (a.y == b.y && (
            a.x < b.x || (a.x == b.x && j < i)))) {
                k = k + 1;
            }
            j = j + 1;
        }
        k
    }

    /// Assigns a label of its own to each anchor, in input order. Anchors left
    /// of the center draw from the left hand, the others from the right; on each
    /// side they are served by row, then column, then input order. A home row of
    /// a single character serves the left side first, then the right one.
    pub fn assign(&self, anchors: &[Point], viewport_width: u16) -> (r: Result<
        Vec<String>,
        LabelError,
    >)
        requires
            self.wf(),
        ensures
            match session_fault(self.rules(), anchors@, viewport_width) {
                Some((requested, capacity)) => r == Err::<Vec<String>, LabelError>(
                    LabelError::TooManyTargets {
                        requested: requested as usize,
                        capacity: capacity as usize,
                    },
                ),
                None => r is Ok && r->Ok_0@.len() == anchors@.len() && forall|i: int|
                    0 <= i < anchors@.len() ==> (#[trigger] r->Ok_0@[i])@ == label_of(
                        self.rules(),
                        anchors@,
                        viewport_width,
                        i,
                    ) && 1 <= r->Ok_0@[i]@.len() <= 2,
            },
            r is Ok ==> forall|i: int, j: int|
                0 <= i < j < anchors@.len() ==> (#[trigger] r->Ok_0@[i])@ != (
                #[trigger] r->Ok_0@[j])@,
    {
        proof {
            lemma_space(self.policy, true);
            lemma_space(self.policy, false);
            lemma_side_count(anchors@, viewport_width, true, anchors@.len() as int);
            lemma_side_count(anchors@, viewport_width, false, anchors@.len() as int);
        }
        if anchors.len() > MAX_BEACON_TARGETS {
            return Err(
                LabelError::TooManyTargets {
                    requested: anchors.len(),
                    capacity: self.capacity(),
                },
            );
        }
        let left: usize = Self::count_side(anchors, viewport_width, true);
        let right: usize = Self::count_side(anchors, viewport_width, false);
        let shared: bool = self.policy.home.len() == 1;
        let left_demand: usize = if shared {
            anchors.len()
        } else {
            left
        };
        let right_demand: usize = if shared {
            anchors.len()
        } else {
            right
        };
        let left_labels = match side_labels(
            self.policy.left_pool(),
            self.policy.overflow(),
            left_demand,
        ) {
            Ok(labels) => labels,
            Err(e) => return Err(e),
        };
        let right_labels = match side_labels(
            self.policy.right_pool(),
            self.policy.overflow(),
            right_demand,
        ) {
            Ok(labels) => labels,
            Err(e) => return Err(e),
        };
        let mut out: Vec<String> = Vec::new();
        while out.len() < anchors.len()
            invariant
                out@.len() <= anchors@.len(),
                shared == is_shared(self.rules()),
                left == side_count(anchors@, viewport_width, true, anchors@.len() as int),
                left_demand == demand(self.rules(), anchors@, viewport_width, true),
                right_demand == demand(self.rules(), anchors@, viewport_width, false),
                left_labels@.len() == left_demand,
                right_labels@.len() == right_demand,
                forall|k: int|
                    0 <= k < left_demand ==> (#[trigger] left_labels@[k])@ == label_at(
                        self.rules().left_chars(),
                        self.rules().overflow_chars(),
                        k,
                    ),
                forall|k: int|
                    0 <= k < right_demand ==> (#[trigger] right_labels@[k])@ == label_at(
                        self.rules().right_chars(),
                        self.rules().overflow_chars(),
                        k,
                    ),
                forall|i: int|
                    0 <= i < out@.len() ==> (#[trigger] out@[i])@ == label_of(
                        self.rules(),
                        anchors@,
                        viewport_width,
                        i,
                    ),
            decreases anchors.len() - out.len(),
        {
            let i: usize = out.len();
            let k: usize = Self::rank_of(anchors, viewport_width, i);
            proof {
                lemma_turn(self.policy, anchors@, viewport_width, i as int);
            }
            if (anchors[i].x as u32) * 2 < viewport_width as u32 {
                out.push(left_labels[k].clone());
            } else if shared {
                out.push(right_labels[left + k].clone());
            } else {
                out.push(right_labels[k].clone());
            }
        }
        proof {
            assert forall|i: int, j: int| 0 <= i < j < anchors@.len() implies (
            #[trigger] out@[i])@ != (#[trigger] out@[j])@ by {
                labels_are_unique(self.policy, anchors@, viewport_width, i, j);
            }
        }
        Ok(out)
    }

    /// Labels that the policy has on both sides together, each side counted for
    /// itself.
    #[must_use]
    pub fn capacity(&self) -> (n: usize)
        requires
            self.wf(),
        ensures
            n == space_of(self.rules(), true) + space_of(self.rules(), false),
    {
        proof {
            lemma_space(self.policy, true);
            lemma_space(self.policy, false);
        }
        side_capacity(self.policy.left_pool().len(), self.policy.overflow().len())
            + side_capacity(self.policy.right_pool().len(), self.policy.overflow().len())
    }
}

impl Default for LabelAllocator {
    fn default() -> (allocator: Self)
        ensures
            allocator.wf(),
            allocator.rules().home_chars() == DEFAULT_HOME_CHARSET@,
            allocator.rules().overflow_chars() == DEFAULT_HOME_CHARSET@,
    {
        Self::new(LabelPolicy::default_policy())
    }
}

impl Clone for LabelAllocator {
    fn clone(&self) -> (allocator: Self)
        ensures
            allocator.rules().home_chars() == self.rules().home_chars(),
            allocator.rules().overflow_chars() == self.rules().overflow_chars(),
    {
        Self { policy: self.policy.clone() }
    }
}

/// A session that does not fit is told what was asked for and what there is: of
/// all anchors when they are over 1024, and else of the first hand that is too
/// small.
pub proof fn overfull_sessions_name_the_hand(
    policy: LabelPolicy,
    anchors: Seq<Point>,
    viewport_width: u16,
)
    requires
        policy.wf(),
        policy.home_chars().len() >= 2,
    ensures
        ({
            let home = policy.home_chars().len();
            let pairs = policy.overflow_chars().len() + 1;
            let n = anchors.len() as int;
            let on_left = Set::new(
                |j: int| 0 <= j < n && 2 * anchors[j].x < viewport_width,
            ).len();
            let left_room = (home / 2) * pairs;
            let right_room = (home - home / 2) * pairs;
            match session_fault(policy, anchors, viewport_width) {
                Some((asked, room)) => if n > 1024 {
                    asked == n && room == left_room + right_room
                } else if on_left > left_room {
                    asked == on_left && room == left_room
                } else {
                    asked == n - on_left && room == right_room && asked > room
                },
                None => true,
            }
        }),
{
    let n = anchors.len() as int;
    let home = policy.home_chars().len();
    let over = policy.overflow_chars().len();
    lemma_half_is_side(anchors, viewport_width, true, n);
    lemma_half_is_side(anchors, viewport_width, false, n);
    assert(on_half(anchors, viewport_width, true, n) =~= Set::new(
        |j: int| 0 <= j < n && 2 * anchors[j].x < viewport_width,
    ));
    sides_add_up(anchors, viewport_width, n);
    let l = policy.side_chars(true).len();
    let r = policy.side_chars(false).len();
    assert(l == home / 2 && r == home - home / 2);
    assert(l + l * over == l * (over + 1)) by (nonlinear_arith);
    assert(r + r * over == r * (over + 1)) by (nonlinear_arith);
}

proof fn sides_add_up(anchors: Seq<Point>, viewport_width: u16, n: int)
    requires
        0 <= n <= anchors.len(),
    ensures
        side_count(anchors, viewport_width, true, n) + side_count(
            anchors,
            viewport_width,
            false,
            n,
        ) == n,
    decreases n,
{
    if n > 0 {
        sides_add_up(anchors, viewport_width, n - 1);
    }
}

} // verus!
