//! Declarative panel records: the seven axes of a panel as one line of
//! `key=value` fields, written and read back.

use crate::panel::PanelId;
use crate::panel_state::{
    Attention, Axes, PanelActivity, PanelAttention, PanelFocusState, PanelInteraction,
    PanelLifecycle, PanelStateError, PanelVisibility, SevenPanelState, MAX_BADGE_TEXT_LEN,
};
use crate::presentation::PresentationMode;
use crate::text;
use crate::uitree::UiNodeId;
use vstd::prelude::*;
use vstd::string::*;

verus! {

/// Version of the record format.
pub const SNAPSHOT_VERSION: u32 = 1;

/// Most records of a snapshot.
pub const MAX_SNAPSHOT_PANELS: usize = 256;

/// Longest record line in characters.
pub const MAX_RECORD_LEN: usize = 2048;

/// Failure to read or rebuild a snapshot.
#[derive(Debug, Clone, PartialEq, Eq)]
pub enum RehydrateError {
    /// A record has another format version.
    UnsupportedVersion { found: u32, supported: u32 },
    /// A record is malformed.
    Malformed { line: usize },
    /// A known key has a bad value.
    BadValue { line: usize, key: String },
    /// There are too many records.
    TooManyPanels { found: usize, cap: usize },
    /// A line is too long.
    RecordTooLong { line: usize, found: usize },
    /// Two records name one panel.
    DuplicatePanel { panel: u64 },
    /// The axes could not be rebuilt.
    State(PanelStateError),
}

impl RehydrateError {
    /// The message of the error.
    pub open spec fn spelled(self) -> Seq<char> {
        match self {
            RehydrateError::UnsupportedVersion { found, supported } =>
                "unsupported snapshot version "@ + text::decimal(found as nat) + ", supported "@
                + text::decimal(supported as nat),
            RehydrateError::Malformed { line } => "malformed record at line "@ + text::decimal(
                line as nat,
            ),
            RehydrateError::BadValue { line, key } => "bad value for '"@ + key@ + "' at line "@
                + text::decimal(line as nat),
            RehydrateError::TooManyPanels { found, cap } => "too many snapshot panels: "@
                + text::decimal(found as nat) + ", cap "@ + text::decimal(cap as nat),
            RehydrateError::RecordTooLong { line, found } => "record too long at line "@
                + text::decimal(line as nat) + ": "@ + text::decimal(found as nat) + " chars"@,
            RehydrateError::DuplicatePanel { panel } => "duplicate snapshot panel "@
                + text::decimal(panel as nat),
            RehydrateError::State(inner) => "panel state error: "@ + inner.spelled(),
        }
    }

    /// Spells the error.
    #[must_use]
    pub fn text(&self) -> (out: String)
        ensures
            out@ == self.spelled(),
    {
        match self {
            Self::UnsupportedVersion { found, supported } => text::ending_numbers(
                "unsupported snapshot version ",
                *found as u64,
                ", supported ",
                *supported as u64,
            ),
            Self::Malformed { line } => text::ending_number(
                "malformed record at line ",
                *line as u64,
            ),
            Self::BadValue { line, key } => {
                let mut out = text::joined3("bad value for '", key.as_str(), "' at line ");
                text::push_decimal(&mut out, *line as u64);
                out
            },
            Self::TooManyPanels { found, cap } => text::ending_numbers(
                "too many snapshot panels: ",
                *found as u64,
                ", cap ",
                *cap as u64,
            ),
            Self::RecordTooLong { line, found } => text::tagged_numbers(
                "record too long at line ",
                *line as u64,
                ": ",
                *found as u64,
                " chars",
            ),
            Self::DuplicatePanel { panel } => text::ending_number(
                "duplicate snapshot panel ",
                *panel,
            ),
            Self::State(inner) => text::joined("panel state error: ", inner.text().as_str()),
        }
    }
}

impl From<PanelStateError> for RehydrateError {
    fn from(inner: PanelStateError) -> (e: Self) {
        Self::State(inner)
    }
}

impl vstd::std_specs::convert::FromSpecImpl<PanelStateError> for RehydrateError {
    open spec fn obeys_from_spec() -> bool {
        true
    }

    open spec fn from_spec(inner: PanelStateError) -> RehydrateError {
        RehydrateError::State(inner)
    }
}

/// Snapshot of the seven axes of a panel as plain values.
#[derive(Debug, PartialEq, Eq)]
pub struct PanelRecord {
    /// Raw panel identity.
    pub panel: u64,
    /// Raw tree node identity.
    pub node: u64,
    /// Lifecycle axis.
    pub lifecycle: PanelLifecycle,
    /// Presentation axis.
    pub presentation: PresentationMode,
    /// Visibility axis.
    pub visibility: PanelVisibility,
    /// Focus axis.
    pub focus: PanelFocusState,
    /// Attention axis.
    pub attention: PanelAttention,
    /// Interaction axis.
    pub interaction: PanelInteraction,
    /// Activity axis.
    pub activity: PanelActivity,
}

impl View for PanelRecord {
    type V = Axes;

    open spec fn view(&self) -> Axes {
        Axes {
            panel: PanelId(self.panel),
            node: UiNodeId(self.node),
            lifecycle: self.lifecycle,
            presentation: self.presentation,
            visibility: self.visibility,
            focus: self.focus,
            attention: self.attention@,
            interaction: self.interaction,
            activity: self.activity,
        }
    }
}

impl Clone for PanelRecord {
    fn clone(&self) -> (r: Self)
        ensures
            r@ == self@,
    {
        Self {
            panel: self.panel,
            node: self.node,
            lifecycle: self.lifecycle,
            presentation: self.presentation,
            visibility: self.visibility,
            focus: self.focus,
            attention: self.attention.clone(),
            interaction: self.interaction,
            activity: self.activity,
        }
    }
}

/// A character as it stands in a field: the separators, the line feed and the
/// escape sign itself are escaped.
pub open spec fn escaped_char(c: char) -> Seq<char> {
    if c == '\\' {
        seq!['\\', '\\']
    } else if c == '\n' {
        seq!['\\', 'n']
    } else if c == ';' {
        seq!['\\', ';']
    } else if c == '=' {
        seq!['\\', '=']
    } else {
        seq![c]
    }
}

/// A text as it stands in a field.
pub open spec fn escaped(s: Seq<char>) -> Seq<char>
    decreases s.len(),
{
    if s.len() == 0 {
        Seq::empty()
    } else {
        escaped(s.drop_last()) + escaped_char(s.last())
    }
}

/// The character that an escape stands for.
pub open spec fn escape_meaning(c: char) -> Option<char> {
    if c == '\\' || c == ';' || c == '=' {
        Some(c)
    } else if c == 'n' {
        Some('\n')
    } else {
        None
    }
}

/// The text that a field stands for, `None` when an escape is unknown or cut
/// off.
pub open spec fn unescaped(s: Seq<char>) -> Option<Seq<char>>
    decreases s.len(),
{
    if s.len() == 0 {
        Some(Seq::empty())
    } else if s[0] != '\\' {
        match unescaped(s.drop_first()) {
            Some(rest) => Some(seq![s[0]] + rest),
            None => None,
        }
    } else if s.len() == 1 {
        None
    } else {
        match (escape_meaning(s[1]), unescaped(s.skip(2))) {
            (Some(c), Some(rest)) => Some(seq![c] + rest),
            _ => None,
        }
    }
}

/// The position of the first separator that is not escaped, or the length.
pub open spec fn field_end(s: Seq<char>) -> int
    decreases s.len(),
{
    if s.len() == 0 {
        0
    } else if s[0] == ';' {
        0
    } else if s[0] == '\\' && s.len() >= 2 {
        2 + field_end(s.skip(2))
    } else {
        1 + field_end(s.drop_first())
    }
}

/// [`field_end`] is a position of the text.
pub proof fn field_end_in_range(s: Seq<char>)
    ensures
        0 <= field_end(s) <= s.len(),
    decreases s.len(),
{
    if s.len() > 0 && s[0] != ';' {
        if s[0] == '\\' && s.len() >= 2 {
            field_end_in_range(s.skip(2));
        } else {
            field_end_in_range(s.drop_first());
        }
    }
}

/// The fields of a record: what stands between separators that are not
/// escaped.
pub open spec fn fields_of(s: Seq<char>) -> Seq<Seq<char>>
    decreases s.len(),
{
    let k = field_end(s);
    if k >= s.len() {
        seq![s]
    } else {
        proof {
            field_end_in_range(s);
        }
        seq![s.take(k)] + fields_of(s.skip(k + 1))
    }
}

/// The keys of a record.
pub ghost enum FieldKey {
    /// Format version.
    Version,
    /// Panel identity.
    Panel,
    /// Tree node identity.
    Node,
    /// Lifecycle axis.
    Lifecycle,
    /// Presentation axis.
    Presentation,
    /// Visibility axis.
    Visibility,
    /// Focus axis.
    Focus,
    /// Kind of attention.
    Attention,
    /// Badge count.
    AttentionCount,
    /// Badge label.
    AttentionText,
    /// Interaction axis.
    Interaction,
    /// Activity axis.
    Activity,
    /// Anything else.
    Unknown,
}

/// The key that a text names.
pub open spec fn key_named(s: Seq<char>) -> FieldKey {
    if s == "v"@ {
        FieldKey::Version
    } else if s == "panel"@ {
        FieldKey::Panel
    } else if s == "node"@ {
        FieldKey::Node
    } else if s == "lifecycle"@ {
        FieldKey::Lifecycle
    } else if s == "presentation"@ {
        FieldKey::Presentation
    } else if s == "visibility"@ {
        FieldKey::Visibility
    } else if s == "focus"@ {
        FieldKey::Focus
    } else if s == "attention"@ {
        FieldKey::Attention
    } else if s == "attention_count"@ {
        FieldKey::AttentionCount
    } else if s == "attention_text"@ {
        FieldKey::AttentionText
    } else if s == "interaction"@ {
        FieldKey::Interaction
    } else if s == "activity"@ {
        FieldKey::Activity
    } else {
        FieldKey::Unknown
    }
}

/// The kinds of attention.
#[derive(Clone, Copy, PartialEq, Eq, Structural)]
pub enum AttentionKind {
    /// Nothing needs the user.
    Quiet,
    /// A counted badge.
    Badge,
    /// An uncounted glow.
    Highlight,
    /// Immediate focus is needed.
    Urgent,
}

/// The kind that a text names.
pub open spec fn kind_named(s: Seq<char>) -> Option<AttentionKind> {
    if s == "quiet"@ {
        Some(AttentionKind::Quiet)
    } else if s == "badge"@ {
        Some(AttentionKind::Badge)
    } else if s == "highlight"@ {
        Some(AttentionKind::Highlight)
    } else if s == "urgent"@ {
        Some(AttentionKind::Urgent)
    } else {
        None
    }
}

/// What the fields of a record have said so far.
pub ghost struct RecordDraft {
    /// The panel.
    pub panel: Option<u64>,
    /// The tree node.
    pub node: u64,
    /// The format version.
    pub version: u32,
    /// Lifecycle axis.
    pub lifecycle: PanelLifecycle,
    /// Presentation axis.
    pub presentation: PresentationMode,
    /// Visibility axis.
    pub visibility: PanelVisibility,
    /// Focus axis.
    pub focus: PanelFocusState,
    /// Kind of attention.
    pub kind: AttentionKind,
    /// Badge count.
    pub count: u32,
    /// Badge label.
    pub label: Seq<char>,
    /// Interaction axis.
    pub interaction: PanelInteraction,
    /// Activity axis.
    pub activity: PanelActivity,
}

/// The draft before the first field: a parked panel.
pub open spec fn parked_draft() -> RecordDraft {
    RecordDraft {
        panel: None,
        node: 0,
        version: SNAPSHOT_VERSION,
        lifecycle: PanelLifecycle::Declared,
        presentation: PresentationMode::Tiled,
        visibility: PanelVisibility::Hidden,
        focus: PanelFocusState::Unfocused,
        kind: AttentionKind::Quiet,
        count: 0,
        label: Seq::empty(),
        interaction: PanelInteraction::Idle,
        activity: PanelActivity::Suspended,
    }
}

/// Why a record is refused.
pub ghost enum RecordFault {
    /// The line has this many characters.
    TooLong(nat),
    /// The line is malformed.
    Malformed,
    /// The value of this key is bad.
    BadValue(Seq<char>),
    /// The record has this format version.
    Version(u32),
}

/// The error reports exactly this fault.
pub open spec fn reports(e: RehydrateError, fault: RecordFault, line: usize) -> bool {
    match fault {
        RecordFault::TooLong(found) => e == (RehydrateError::RecordTooLong {
            line,
            found: found as usize,
        }),
        RecordFault::Malformed => e == (RehydrateError::Malformed { line }),
        RecordFault::BadValue(wanted) => e matches RehydrateError::BadValue { line: at, key } && at
            == line && key@ == wanted,
        RecordFault::Version(found) => e == (RehydrateError::UnsupportedVersion {
            found,
            supported: SNAPSHOT_VERSION,
        }),
    }
}

/// The draft after the value of one key.
pub open spec fn with_value(d: RecordDraft, key: Seq<char>, value: Seq<char>) -> Result<
    RecordDraft,
    RecordFault,
> {
    let bad = Err::<RecordDraft, RecordFault>(RecordFault::BadValue(key));
    match key_named(key) {
        FieldKey::Version => match text::number_in(value, u32::MAX as nat) {
            Some(n) => Ok(RecordDraft { version: n as u32, ..d }),
            None => bad,
        },
        FieldKey::Panel => match text::number_in(value, u64::MAX as nat) {
            Some(n) => Ok(RecordDraft { panel: Some(n as u64), ..d }),
            None => bad,
        },
        FieldKey::Node => match text::number_in(value, u64::MAX as nat) {
            Some(n) => Ok(RecordDraft { node: n as u64, ..d }),
            None => bad,
        },
        FieldKey::Lifecycle => match PanelLifecycle::named(value) {
            Some(lifecycle) => Ok(RecordDraft { lifecycle, ..d }),
            None => bad,
        },
        FieldKey::Presentation => match PresentationMode::named(value) {
            Some(presentation) => Ok(RecordDraft { presentation, ..d }),
            None => bad,
        },
        FieldKey::Visibility => match PanelVisibility::named(value) {
            Some(visibility) => Ok(RecordDraft { visibility, ..d }),
            None => bad,
        },
        FieldKey::Focus => match PanelFocusState::named(value) {
            Some(focus) => Ok(RecordDraft { focus, ..d }),
            None => bad,
        },
        FieldKey::Attention => match kind_named(value) {
            Some(kind) => Ok(RecordDraft { kind, ..d }),
            None => bad,
        },
        FieldKey::AttentionCount => match text::number_in(value, u32::MAX as nat) {
            Some(n) => Ok(RecordDraft { count: n as u32, ..d }),
            None => bad,
        },
        FieldKey::AttentionText => match unescaped(value) {
            Some(label) => Ok(RecordDraft { label, ..d }),
            None => Err(RecordFault::Malformed),
        },
        FieldKey::Interaction => match PanelInteraction::named(value) {
            Some(interaction) => Ok(RecordDraft { interaction, ..d }),
            None => bad,
        },
        FieldKey::Activity => match PanelActivity::named(value) {
            Some(activity) => Ok(RecordDraft { activity, ..d }),
            None => bad,
        },
        FieldKey::Unknown => Ok(d),
    }
}

/// The draft after one more field. Empty fields and unknown keys are ignored.
pub open spec fn with_field(d: RecordDraft, field: Seq<char>) -> Result<RecordDraft, RecordFault> {
    let k = text::index_of(field, '=');
    if field.len() == 0 {
        Ok(d)
    } else if k >= field.len() {
        Err(RecordFault::Malformed)
    } else {
        with_value(d, field.take(k), field.skip(k + 1))
    }
}

/// The draft after all fields, or the first fault among them.
pub open spec fn drafted(fields: Seq<Seq<char>>) -> Result<RecordDraft, RecordFault>
    decreases fields.len(),
{
    if fields.len() == 0 {
        Ok(parked_draft())
    } else {
        match drafted(fields.drop_last()) {
            Ok(d) => with_field(d, fields.last()),
            Err(fault) => Err(fault),
        }
    }
}

/// The axes of a finished draft.
pub open spec fn finished(d: RecordDraft) -> Result<Axes, RecordFault> {
    if d.version != SNAPSHOT_VERSION {
        Err(RecordFault::Version(d.version))
    } else {
        match d.panel {
            None => Err(RecordFault::Malformed),
            Some(panel) => if d.kind is Badge && d.label.len() > MAX_BADGE_TEXT_LEN {
                Err(RecordFault::BadValue("attention_text"@))
            } else {
                Ok(
                    Axes {
                        panel: PanelId(panel),
                        node: UiNodeId(d.node),
                        lifecycle: d.lifecycle,
                        presentation: d.presentation,
                        visibility: d.visibility,
                        focus: d.focus,
                        attention: match d.kind {
                            AttentionKind::Quiet => Attention::Quiet,
                            AttentionKind::Badge => Attention::Badge {
                                count: d.count,
                                label: d.label,
                            },
                            AttentionKind::Highlight => Attention::Highlight,
                            AttentionKind::Urgent => Attention::Urgent,
                        },
                        interaction: d.interaction,
                        activity: d.activity,
                    },
                )
            },
        }
    }
}

/// What a record line says, or why it is refused.
pub open spec fn record_read(line: Seq<char>) -> Result<Axes, RecordFault> {
    if line.len() > MAX_RECORD_LEN {
        Err(RecordFault::TooLong(line.len()))
    } else {
        match drafted(fields_of(line)) {
            Ok(d) => finished(d),
            Err(fault) => Err(fault),
        }
    }
}

/// The name of the kind of attention.
pub open spec fn kind_text(a: Attention) -> Seq<char> {
    match a {
        Attention::Quiet => "quiet"@,
        Attention::Badge { .. } => "badge"@,
        Attention::Highlight => "highlight"@,
        Attention::Urgent => "urgent"@,
    }
}

/// The badge count, zero without a badge.
pub open spec fn badge_count(a: Attention) -> u32 {
    match a {
        Attention::Badge { count, .. } => count,
        _ => 0,
    }
}

/// The badge label, empty without a badge.
pub open spec fn badge_label(a: Attention) -> Seq<char> {
    match a {
        Attention::Badge { label, .. } => label,
        _ => Seq::empty(),
    }
}

/// The line of a record.
pub open spec fn record_line(a: Axes) -> Seq<char> {
    "v="@ + text::decimal(SNAPSHOT_VERSION as nat) + ";panel="@ + text::decimal(a.panel.0 as nat)
        + ";node="@ + text::decimal(a.node.0 as nat) + ";lifecycle="@ + a.lifecycle.spelled()
        + ";presentation="@ + a.presentation.spelled() + ";visibility="@ + a.visibility.spelled()
        + ";focus="@ + a.focus.spelled() + ";attention="@ + kind_text(a.attention)
        + ";attention_count="@ + text::decimal(badge_count(a.attention) as nat)
        + ";attention_text="@ + escaped(badge_label(a.attention)) + ";interaction="@
        + a.interaction.spelled() + ";activity="@ + a.activity.spelled()
}

impl PanelRecord {
    /// Captures the axes of a panel.
    #[must_use]
    pub fn capture(state: &SevenPanelState) -> (r: Self)
        ensures
            r@ == state@,
    {
        Self {
            panel: state.panel().get(),
            node: state.node().get(),
            lifecycle: state.lifecycle(),
            presentation: state.presentation(),
            visibility: state.visibility(),
            focus: state.focus(),
            attention: state.attention().clone(),
            interaction: state.interaction(),
            activity: state.activity(),
        }
    }

    /// Encodes the record as one line of fields in a fixed order.
    #[must_use]
    pub fn encode(&self) -> (line: String)
        ensures
            line@ == record_line(self@),
    {
        let (count, label): (u32, String) = match &self.attention {
            PanelAttention::Badge { count, text } => (*count, escape(text.as_str())),
            _ => (0, String::new()),
        };
        assert(label@ =~= escaped(badge_label(self@.attention)));
        let mut line = text::tagged_numbers(
            "v=",
            SNAPSHOT_VERSION as u64,
            ";panel=",
            self.panel,
            ";node=",
        );
        text::push_decimal(&mut line, self.node);
        line.append(";lifecycle=");
        line.append(self.lifecycle.as_str());
        line.append(";presentation=");
        line.append(self.presentation.as_str());
        line.append(";visibility=");
        line.append(self.visibility.as_str());
        line.append(";focus=");
        line.append(self.focus.as_str());
        line.append(";attention=");
        line.append(self.attention.kind_str());
        line.append(";attention_count=");
        text::push_decimal(&mut line, count as u64);
        line.append(";attention_text=");
        line.append(label.as_str());
        line.append(";interaction=");
        line.append(self.interaction.as_str());
        line.append(";activity=");
        line.append(self.activity.as_str());
        line
    }

    /// Decodes one record line. Unknown keys are ignored and missing ones take
    /// the values of a parked panel; a missing panel rejects the line.
    pub fn decode(line: &str) -> (r: Result<Self, RehydrateError>)
        ensures
            match r {
                Ok(p) => record_read(line@) == Ok::<Axes, RecordFault>(p@),
                Err(e) => record_read(line@) matches Err(fault) && reports(e, fault, 1),
            },
    {
        let chars = text::chars_of(line);
        decode_record(&chars, 1)
    }
}

fn escape(text: &str) -> (out: String)
    ensures
        out@ == escaped(text@),
{
    let chars = text::chars_of(text);
    let mut out = String::new();
    let mut i: usize = 0;
    while i < chars.len()
        invariant
            0 <= i <= chars.len(),
            out@ == escaped(chars@.take(i as int)),
        decreases chars.len() - i,
    {
        let ghost before = out@;
        let c: char = chars[i];
        assert(chars@.take(i + 1).drop_last() =~= chars@.take(i as int));
        if c == '\\' {
            out.push('\\');
            out.push('\\');
        } else if c == '\n' {
            out.push('\\');
            out.push('n');
        } else if c == ';' {
            out.push('\\');
            out.push(';');
        } else if c == '=' {
            out.push('\\');
            out.push('=');
        } else {
            out.push(c);
        }
        assert(out@ =~= before + escaped_char(c));
        i = i + 1;
    }
    assert(chars@.take(i as int) =~= chars@);
    out
}

fn unescape(s: &Vec<char>) -> (r: Option<String>)
    ensures
        match r {
            Some(t) => unescaped(s@) == Some(t@),
            None => unescaped(s@) is None,
        },
{
    let mut out = String::new();
    let mut i: usize = 0;
    assert(s@.skip(0) =~= s@);
    assert(unescaped(s@) == prefixed(out@, unescaped(s@))) by {
        if let Some(rest) = unescaped(s@) {
            assert(out@ + rest =~= rest);
        }
    }
    while i < s.len()
        invariant
            0 <= i <= s.len(),
            unescaped(s@) == prefixed(out@, unescaped(s@.skip(i as int))),
        decreases s.len() - i,
    {
        let ghost before = out@;
        let ghost rest = s@.skip(i as int);
        let c: char = s[i];
        if c != '\\' {
            out.push(c);
            i = i + 1;
            proof {
                assert(rest.drop_first() =~= s@.skip(i as int));
                if let Some(t) = unescaped(s@.skip(i as int)) {
                    assert(before + (seq![c] + t) =~= out@ + t);
                }
            }
        } else {
            if i + 1 >= s.len() {
                return None;
            }
            let next: char = s[i + 1];
            let meant: char = if next == '\\' || next == ';' || next == '=' {
                next
            } else if next == 'n' {
                '\n'
            } else {
                return None;
            };
            out.push(meant);
            i = i + 2;
            proof {
                assert(rest.skip(2) =~= s@.skip(i as int));
                if let Some(t) = unescaped(s@.skip(i as int)) {
                    assert(before + (seq![meant] + t) =~= out@ + t);
                }
            }
        }
    }
    assert(s@.skip(i as int) =~= Seq::<char>::empty());
    assert(out@ + Seq::<char>::empty() =~= out@);
    Some(out)
}

/// The text behind what has been read of it.
spec fn prefixed(head: Seq<char>, rest: Option<Seq<char>>) -> Option<Seq<char>> {
    match rest {
        Some(t) => Some(head + t),
        None => None,
    }
}

fn split_fields(s: &Vec<char>) -> (out: Vec<Vec<char>>)
    ensures
        text::texts(out@) == fields_of(s@),
{
    let mut out: Vec<Vec<char>> = Vec::new();
    let mut start: usize = 0;
    let mut i: usize = 0;
    assert(s@.skip(0) =~= s@);
    assert(text::texts(out@) + fields_of(s@) =~= fields_of(s@));
    proof {
        field_end_in_range(s@);
    }
    while i < s.len()
        invariant
            0 <= start <= i <= s.len(),
            text::texts(out@) + fields_of(s@.skip(start as int)) == fields_of(s@),
            field_end(s@.skip(start as int)) == i - start + field_end(s@.skip(i as int)),
        decreases s.len() - i,
    {
        let ghost rest = s@.skip(i as int);
        proof {
            field_end_in_range(rest);
            field_end_in_range(s@.skip(start as int));
        }
        if s[i] == '\\' && s.len() - i >= 2 {
            assert(rest.skip(2) =~= s@.skip(i + 2));
            i = i + 2;
        } else if s[i] == ';' {
            let ghost before = text::texts(out@);
            let ghost whole = s@.skip(start as int);
            assert(field_end(whole) == i - start);
            out.push(text::part_of(s.as_slice(), start, i));
            proof {
                assert(whole.take(i - start) =~= s@.subrange(start as int, i as int));
                assert(whole.skip(i - start + 1) =~= s@.skip(i + 1));
                assert(text::texts(out@) =~= before.push(s@.subrange(start as int, i as int)));
                assert(text::texts(out@) + fields_of(s@.skip(i + 1)) =~= before + fields_of(whole));
            }
            start = i + 1;
            i = i + 1;
        } else {
            assert(rest.drop_first() =~= s@.skip(i + 1));
            i = i + 1;
        }
    }
    let ghost before = text::texts(out@);
    proof {
        let rest = s@.skip(start as int);
        assert(s@.skip(i as int) =~= Seq::<char>::empty());
        assert(field_end(rest) == rest.len());
        assert(rest =~= s@.subrange(start as int, s@.len() as int));
    }
    out.push(text::part_of(s.as_slice(), start, s.len()));
    assert(text::texts(out@) =~= before + fields_of(s@.skip(start as int)));
    out
}

struct Draft {
    panel: Option<u64>,
    node: u64,
    version: u32,
    lifecycle: PanelLifecycle,
    presentation: PresentationMode,
    visibility: PanelVisibility,
    focus: PanelFocusState,
    kind: AttentionKind,
    count: u32,
    label: String,
    interaction: PanelInteraction,
    activity: PanelActivity,
}

impl View for Draft {
    type V = RecordDraft;

    closed spec fn view(&self) -> RecordDraft {
        RecordDraft {
            panel: self.panel,
            node: self.node,
            version: self.version,
            lifecycle: self.lifecycle,
            presentation: self.presentation,
            visibility: self.visibility,
            focus: self.focus,
            kind: self.kind,
            count: self.count,
            label: self.label@,
            interaction: self.interaction,
            activity: self.activity,
        }
    }
}

fn parse_kind(s: &str) -> (kind: Option<AttentionKind>)
    ensures
        kind == kind_named(s@),
{
    if text::same_text(s, "quiet") {
        Some(AttentionKind::Quiet)
    } else if text::same_text(s, "badge") {
        Some(AttentionKind::Badge)
    } else if text::same_text(s, "highlight") {
        Some(AttentionKind::Highlight)
    } else if text::same_text(s, "urgent") {
        Some(AttentionKind::Urgent)
    } else {
        None
    }
}

fn bad(line: usize, key: &str) -> (e: RehydrateError)
    ensures
        reports(e, RecordFault::BadValue(key@), line),
{
    RehydrateError::BadValue { line, key: key.to_owned() }
}

fn add_value(d: Draft, key: &str, value: &Vec<char>, line: usize) -> (r: Result<
    Draft,
    RehydrateError,
>)
    ensures
        match r {
            Ok(n) => with_value(d@, key@, value@) == Ok::<RecordDraft, RecordFault>(n@),
            Err(e) => with_value(d@, key@, value@) matches Err(fault) && reports(e, fault, line),
        },
{
    let mut next = d;
    let word = text::string_of(value.as_slice());
    if text::same_text(key, "v") {
        match text::parse_number(value.as_slice(), u32::MAX as u64) {
            Some(n) => {
                next.version = n as u32;
            },
            None => return Err(bad(line, key)),
        }
    } else if text::same_text(key, "panel") {
        match text::parse_number(value.as_slice(), u64::MAX) {
            Some(n) => {
                next.panel = Some(n);
            },
            None => return Err(bad(line, key)),
        }
    } else if text::same_text(key, "node") {
        match text::parse_number(value.as_slice(), u64::MAX) {
            Some(n) => {
                next.node = n;
            },
            None => return Err(bad(line, key)),
        }
    } else if text::same_text(key, "lifecycle") {
        match PanelLifecycle::parse(word.as_str()) {
            Some(v) => {
                next.lifecycle = v;
            },
            None => return Err(bad(line, key)),
        }
    } else if text::same_text(key, "presentation") {
        match PresentationMode::parse(word.as_str()) {
            Some(v) => {
                next.presentation = v;
            },
            None => return Err(bad(line, key)),
        }
    } else if text::same_text(key, "visibility") {
        match PanelVisibility::parse(word.as_str()) {
            Some(v) => {
                next.visibility = v;
            },
            None => return Err(bad(line, key)),
        }
    } else if text::same_text(key, "focus") {
        match PanelFocusState::parse(word.as_str()) {
            Some(v) => {
                next.focus = v;
            },
            None => return Err(bad(line, key)),
        }
    } else if text::same_text(key, "attention") {
        match parse_kind(word.as_str()) {
            Some(v) => {
                next.kind = v;
            },
            None => return Err(bad(line, key)),
        }
    } else if text::same_text(key, "attention_count") {
        match text::parse_number(value.as_slice(), u32::MAX as u64) {
            Some(n) => {
                next.count = n as u32;
            },
            None => return Err(bad(line, key)),
        }
    } else if text::same_text(key, "attention_text") {
        match unescape(value) {
            Some(t) => {
                next.label = t;
            },
            None => return Err(RehydrateError::Malformed { line }),
        }
    } else if text::same_text(key, "interaction") {
        match PanelInteraction::parse(word.as_str()) {
            Some(v) => {
                next.interaction = v;
            },
            None => return Err(bad(line, key)),
        }
    } else if text::same_text(key, "activity") {
        match PanelActivity::parse(word.as_str()) {
            Some(v) => {
                next.activity = v;
            },
            None => return Err(bad(line, key)),
        }
    }
    Ok(next)
}

fn add_field(d: Draft, field: &Vec<char>, line: usize) -> (r: Result<Draft, RehydrateError>)
    ensures
        match r {
            Ok(n) => with_field(d@, field@) == Ok::<RecordDraft, RecordFault>(n@),
            Err(e) => with_field(d@, field@) matches Err(fault) && reports(e, fault, line),
        },
{
    if field.len() == 0 {
        return Ok(d);
    }
    let k: usize = text::find_char(field.as_slice(), '=');
    if k >= field.len() {
        return Err(RehydrateError::Malformed { line });
    }
    let key = text::part_of(field.as_slice(), 0, k);
    let value = text::part_of(field.as_slice(), k + 1, field.len());
    assert(key@ =~= field@.take(k as int));
    assert(value@ =~= field@.skip(k + 1));
    add_value(d, text::string_of(key.as_slice()).as_str(), &value, line)
}

proof fn lemma_drafted_fails(fields: Seq<Seq<char>>, k: int)
    requires
        0 <= k <= fields.len(),
        drafted(fields.take(k)) is Err,
    ensures
        drafted(fields) == drafted(fields.take(k)),
    decreases fields.len(),
{
    if k == fields.len() {
        assert(fields.take(k) =~= fields);
    } else {
        assert(fields.drop_last().take(k) =~= fields.take(k));
        lemma_drafted_fails(fields.drop_last(), k);
    }
}

pub(crate) fn decode_record(line: &Vec<char>, line_no: usize) -> (r: Result<
    PanelRecord,
    RehydrateError,
>)
    ensures
        match r {
            Ok(p) => record_read(line@) == Ok::<Axes, RecordFault>(p@),
            Err(e) => record_read(line@) matches Err(fault) && reports(e, fault, line_no),
        },
{
    if line.len() > MAX_RECORD_LEN {
        return Err(RehydrateError::RecordTooLong { line: line_no, found: line.len() });
    }
    let mut draft = Draft {
        panel: None,
        node: 0,
        version: SNAPSHOT_VERSION,
        lifecycle: PanelLifecycle::Declared,
        presentation: PresentationMode::Tiled,
        visibility: PanelVisibility::Hidden,
        focus: PanelFocusState::Unfocused,
        kind: AttentionKind::Quiet,
        count: 0,
        label: String::new(),
        interaction: PanelInteraction::Idle,
        activity: PanelActivity::Suspended,
    };
    let fields = split_fields(line);
    let ghost all = text::texts(fields@);
    assert(draft@.label =~= Seq::<char>::empty());
    let mut i: usize = 0;
    while i < fields.len()
        invariant
            0 <= i <= fields.len(),
            all == text::texts(fields@),
            all == fields_of(line@),
            line@.len() <= MAX_RECORD_LEN,
            drafted(all.take(i as int)) == Ok::<RecordDraft, RecordFault>(draft@),
        decreases fields.len() - i,
    {
        assert(all.take(i + 1).drop_last() =~= all.take(i as int));
        assert(all.take(i + 1).last() == fields@[i as int]@);
        match add_field(draft, &fields[i], line_no) {
            Ok(d) => {
                draft = d;
            },
            Err(e) => {
                proof {
                    lemma_drafted_fails(all, i + 1);
                }
                return Err(e);
            },
        }
        i = i + 1;
    }
    assert(all.take(i as int) =~= all);
    if draft.version != SNAPSHOT_VERSION {
        return Err(
            RehydrateError::UnsupportedVersion {
                found: draft.version,
                supported: SNAPSHOT_VERSION,
            },
        );
    }
    let panel: u64 = match draft.panel {
        Some(p) => p,
        None => return Err(RehydrateError::Malformed { line: line_no }),
    };
    let attention = match draft.kind {
        AttentionKind::Badge => {
            if text::chars_of(draft.label.as_str()).len() > MAX_BADGE_TEXT_LEN {
                return Err(bad(line_no, "attention_text"));
            }
            PanelAttention::Badge { count: draft.count, text: draft.label }
        },
        AttentionKind::Highlight => PanelAttention::Highlight,
        AttentionKind::Urgent => PanelAttention::Urgent,
        AttentionKind::Quiet => PanelAttention::Quiet,
    };
    Ok(
        PanelRecord {
            panel,
            node: draft.node,
            lifecycle: draft.lifecycle,
            presentation: draft.presentation,
            visibility: draft.visibility,
            focus: draft.focus,
            attention,
            interaction: draft.interaction,
            activity: draft.activity,
        },
    )
}

} // verus!
