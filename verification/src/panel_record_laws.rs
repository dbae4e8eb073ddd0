//! What is written into a panel record is read back from it.

use crate::panel::PanelId;
use crate::panel_record;
use crate::panel_record::{RecordDraft, RecordFault};
use crate::panel_state;
use crate::panel_state::{Attention, Axes};
use crate::presentation;
use crate::text;
use crate::uitree::UiNodeId;
use vstd::prelude::*;

verus! {

/// Every separator of the text is escaped and no escape is cut off.
pub open spec fn sealed(s: Seq<char>) -> bool
    decreases s.len(),
{
    if s.len() == 0 {
        true
    } else if s[0] == ';' {
        false
    } else if s[0] == '\\' {
        s.len() >= 2 && sealed(s.skip(2))
    } else {
        sealed(s.drop_first())
    }
}

/// A text of lowercase letters, digits and underscores.
pub open spec fn is_word(s: Seq<char>) -> bool {
    forall|i: int|
        0 <= i < s.len() ==> text::is_lower(#[trigger] s[i]) || text::is_digit(s[i]) || s[i] == '_'
}

proof fn lemma_word(s: Seq<char>)
    requires
        is_word(s),
    ensures
        sealed(s),
        !s.contains('='),
        !s.contains('\n'),
        s.len() > 0 ==> !text::is_space(s[0]) && !text::is_space(s.last()),
{
    lemma_word_sealed(s);
    if s.len() > 0 {
        assert(text::is_lower(s[0]) || text::is_digit(s[0]) || s[0] == '_');
        assert(text::is_lower(s[s.len() - 1]) || text::is_digit(s[s.len() - 1]) || s[s.len() - 1]
            == '_');
    }
    assert forall|c: char| s.contains(c) implies c != '=' && c != '\n' by {
        let i = choose|i: int| 0 <= i < s.len() && s[i] == c;
        assert(text::is_lower(s[i]) || text::is_digit(s[i]) || s[i] == '_');
    }
}

proof fn lemma_word_sealed(s: Seq<char>)
    requires
        is_word(s),
    ensures
        sealed(s),
    decreases s.len(),
{
    if s.len() > 0 {
        let rest = s.drop_first();
        assert(text::is_lower(s[0]) || text::is_digit(s[0]) || s[0] == '_');
        assert forall|i: int| 0 <= i < rest.len() implies text::is_lower(#[trigger] rest[i])
            || text::is_digit(rest[i]) || rest[i] == '_' by {
            assert(rest[i] == s[i + 1]);
        }
        lemma_word_sealed(rest);
    }
}

proof fn lemma_number_word(n: nat)
    ensures
        is_word(text::decimal(n)),
        text::decimal(n).len() > 0,
{
    text::lemma_decimal(n);
}

proof fn lemma_sealed_end(a: Seq<char>, rest: Seq<char>)
    requires
        sealed(a),
    ensures
        panel_record::field_end(a + seq![';'] + rest) == a.len(),
        panel_record::field_end(a) == a.len(),
    decreases a.len(),
{
    let s = a + seq![';'] + rest;
    if a.len() > 0 {
        if a[0] == '\\' {
            lemma_sealed_end(a.skip(2), rest);
            assert(s.skip(2) =~= a.skip(2) + seq![';'] + rest);
        } else {
            lemma_sealed_end(a.drop_first(), rest);
            assert(s.drop_first() =~= a.drop_first() + seq![';'] + rest);
        }
    }
}

proof fn lemma_sealed_runs(a: Seq<char>, b: Seq<char>)
    requires
        sealed(a),
        sealed(b),
    ensures
        sealed(a + b),
    decreases a.len(),
{
    if a.len() == 0 {
        assert(a + b =~= b);
    } else if a[0] == '\\' {
        lemma_sealed_runs(a.skip(2), b);
        assert((a + b).skip(2) =~= a.skip(2) + b);
    } else {
        lemma_sealed_runs(a.drop_first(), b);
        assert((a + b).drop_first() =~= a.drop_first() + b);
    }
}

/// A sealed text in front of a separator is the first field.
proof fn lemma_first_field(a: Seq<char>, rest: Seq<char>)
    requires
        sealed(a),
    ensures
        panel_record::fields_of(a + seq![';'] + rest) == seq![a] + panel_record::fields_of(rest),
        panel_record::fields_of(a) == seq![a],
{
    let s = a + seq![';'] + rest;
    lemma_sealed_end(a, rest);
    assert(s.take(a.len() as int) =~= a);
    assert(s.skip(a.len() as int + 1) =~= rest);
}

proof fn lemma_escaped_char(c: char)
    ensures
        sealed(panel_record::escaped_char(c)),
        !panel_record::escaped_char(c).contains('\n'),
        1 <= panel_record::escaped_char(c).len() <= 2,
{
    let e = panel_record::escaped_char(c);
    reveal_with_fuel(sealed, 3);
    if e.len() == 2 {
        assert(e.skip(2) =~= Seq::<char>::empty());
        assert forall|x: char| e.contains(x) implies x != '\n' by {
            let i = choose|i: int| 0 <= i < e.len() && e[i] == x;
            assert(i == 0 || i == 1);
        }
    } else {
        assert(e.drop_first() =~= Seq::<char>::empty());
        assert forall|x: char| e.contains(x) implies x != '\n' by {
            let i = choose|i: int| 0 <= i < e.len() && e[i] == x;
            assert(i == 0);
        }
    }
}

/// Reading the escapes of the last character.
proof fn lemma_unescape_runs(a: Seq<char>, b: Seq<char>)
    requires
        sealed(a),
        panel_record::unescaped(a) is Some,
    ensures
        panel_record::unescaped(a + b) == (match panel_record::unescaped(b) {
            Some(t) => Some(panel_record::unescaped(a)->Some_0 + t),
            None => None,
        }),
    decreases a.len(),
{
    let s = a + b;
    if a.len() == 0 {
        assert(s =~= b);
        if let Some(t) = panel_record::unescaped(b) {
            assert(Seq::<char>::empty() + t =~= t);
        }
    } else if a[0] == '\\' {
        lemma_unescape_runs(a.skip(2), b);
        assert(s.skip(2) =~= a.skip(2) + b);
        assert(s[1] == a[1]);
        if let Some(t) = panel_record::unescaped(b) {
            let head = panel_record::escape_meaning(a[1])->Some_0;
            let mid = panel_record::unescaped(a.skip(2))->Some_0;
            assert(seq![head] + (mid + t) =~= (seq![head] + mid) + t);
        }
    } else {
        lemma_unescape_runs(a.drop_first(), b);
        assert(s.drop_first() =~= a.drop_first() + b);
        if let Some(t) = panel_record::unescaped(b) {
            let mid = panel_record::unescaped(a.drop_first())->Some_0;
            assert(seq![a[0]] + (mid + t) =~= (seq![a[0]] + mid) + t);
        }
    }
}

proof fn lemma_unescape_char(c: char)
    ensures
        panel_record::unescaped(panel_record::escaped_char(c)) == Some(seq![c]),
{
    let e = panel_record::escaped_char(c);
    reveal_with_fuel(panel_record::unescaped, 3);
    if e.len() == 2 {
        assert(e.skip(2) =~= Seq::<char>::empty());
    } else {
        assert(e.drop_first() =~= Seq::<char>::empty());
    }
    assert(seq![c] + Seq::<char>::empty() =~= seq![c]);
}

/// An escaped text reads back as the text; it holds no line feed and no bare
/// separator, and is at most twice as long.
pub proof fn escapes_read_back(s: Seq<char>)
    ensures
        panel_record::unescaped(panel_record::escaped(s)) == Some(s),
        sealed(panel_record::escaped(s)),
        !panel_record::escaped(s).contains('\n'),
        panel_record::escaped(s).len() <= 2 * s.len(),
    decreases s.len(),
{
    if s.len() == 0 {
        assert(s =~= Seq::<char>::empty());
    } else {
        let front = s.drop_last();
        let a = panel_record::escaped(front);
        let e = panel_record::escaped_char(s.last());
        escapes_read_back(front);
        lemma_escaped_char(s.last());
        lemma_unescape_char(s.last());
        lemma_sealed_runs(a, e);
        lemma_unescape_runs(a, e);
        assert(front + seq![s.last()] =~= s);
        assert forall|x: char| (a + e).contains(x) implies x != '\n' by {
            let i = choose|i: int| 0 <= i < (a + e).len() && (a + e)[i] == x;
            if i < a.len() {
                assert(a[i] == x);
            } else {
                assert(e[i - a.len()] == x);
            }
        }
    }
}

/// A field is a key, an equals sign and a value.
spec fn field(key: Seq<char>, value: Seq<char>) -> Seq<char> {
    key + seq!['='] + value
}

proof fn lemma_field(key: Seq<char>, value: Seq<char>, d: panel_record::RecordDraft)
    requires
        is_word(key),
        sealed(value),
        !value.contains('\n'),
    ensures
        sealed(field(key, value)),
        !field(key, value).contains('\n'),
        panel_record::with_field(d, field(key, value)) == panel_record::with_value(d, key, value),
{
    let f = field(key, value);
    lemma_word(key);
    reveal_with_fuel(sealed, 2);
    assert(seq!['='].drop_first() =~= Seq::<char>::empty());
    assert(sealed(seq!['=']));
    lemma_sealed_runs(key, seq!['=']);
    lemma_sealed_runs(key + seq!['='], value);
    assert forall|j: int| 0 <= j < key.len() implies f[j] != '=' by {
        assert(f[j] == key[j]);
        assert(key.contains(key[j]));
    }
    text::index_of_unique(f, '=', key.len() as int);
    assert(f.take(key.len() as int) =~= key);
    assert(f.skip(key.len() as int + 1) =~= value);
    assert forall|x: char| f.contains(x) implies x != '\n' by {
        let i = choose|i: int| 0 <= i < f.len() && f[i] == x;
        if i < key.len() {
            assert(key[i] == x);
            assert(key.contains(x));
        } else if i > key.len() {
            assert(value[i - key.len() - 1] == x);
            assert(value.contains(x));
        }
    }
}

proof fn lemma_keys()
    ensures
        panel_record::key_named("v"@) == panel_record::FieldKey::Version,
        panel_record::key_named("panel"@) == panel_record::FieldKey::Panel,
        panel_record::key_named("node"@) == panel_record::FieldKey::Node,
        panel_record::key_named("lifecycle"@) == panel_record::FieldKey::Lifecycle,
        panel_record::key_named("presentation"@) == panel_record::FieldKey::Presentation,
        panel_record::key_named("visibility"@) == panel_record::FieldKey::Visibility,
        panel_record::key_named("focus"@) == panel_record::FieldKey::Focus,
        panel_record::key_named("attention"@) == panel_record::FieldKey::Attention,
        panel_record::key_named("attention_count"@) == panel_record::FieldKey::AttentionCount,
        panel_record::key_named("attention_text"@) == panel_record::FieldKey::AttentionText,
        panel_record::key_named("interaction"@) == panel_record::FieldKey::Interaction,
        panel_record::key_named("activity"@) == panel_record::FieldKey::Activity,
{
    reveal_strlit("v");
    reveal_strlit("panel");
    reveal_strlit("node");
    reveal_strlit("lifecycle");
    reveal_strlit("presentation");
    reveal_strlit("visibility");
    reveal_strlit("focus");
    reveal_strlit("attention");
    reveal_strlit("attention_count");
    reveal_strlit("attention_text");
    reveal_strlit("interaction");
    reveal_strlit("activity");
    assert("v"@.len() == 1 && "panel"@.len() == 5 && "node"@.len() == 4 && "lifecycle"@.len() == 9);
    assert("presentation"@.len() == 12 && "visibility"@.len() == 10 && "focus"@.len() == 5);
    assert("attention"@.len() == 9 && "attention_count"@.len() == 15);
    assert("attention_text"@.len() == 14 && "interaction"@.len() == 11 && "activity"@.len() == 8);
    assert("panel"@[0] != "focus"@[0]);
    assert("lifecycle"@[0] != "attention"@[0]);
}

proof fn lemma_key_words()
    ensures
        is_word("v"@),
        is_word("panel"@),
        is_word("node"@),
        is_word("lifecycle"@),
        is_word("presentation"@),
        is_word("visibility"@),
        is_word("focus"@),
        is_word("attention"@),
        is_word("attention_count"@),
        is_word("attention_text"@),
        is_word("interaction"@),
        is_word("activity"@),
{
    reveal_strlit("v");
    reveal_strlit("panel");
    reveal_strlit("node");
    reveal_strlit("lifecycle");
    reveal_strlit("presentation");
    reveal_strlit("visibility");
    reveal_strlit("focus");
    reveal_strlit("attention");
    reveal_strlit("attention_count");
    reveal_strlit("attention_text");
    reveal_strlit("interaction");
    reveal_strlit("activity");
}

proof fn lemma_names(a: Axes)
    ensures
        is_word(a.lifecycle.spelled()),
        is_word(a.presentation.spelled()),
        is_word(a.visibility.spelled()),
        is_word(a.focus.spelled()),
        is_word(a.interaction.spelled()),
        is_word(a.activity.spelled()),
        is_word(panel_record::kind_text(a.attention)),
        a.lifecycle.spelled().len() <= 20,
        a.presentation.spelled().len() <= 20,
        a.visibility.spelled().len() <= 20,
        a.focus.spelled().len() <= 20,
        a.interaction.spelled().len() <= 20,
        1 <= a.activity.spelled().len() <= 20,
        panel_record::kind_text(a.attention).len() <= 20,
{
    reveal_strlit("declared");
    reveal_strlit("created");
    reveal_strlit("mounted");
    reveal_strlit("focused");
    reveal_strlit("suspended");
    reveal_strlit("closed");
    reveal_strlit("disposed");
    reveal_strlit("tiled");
    reveal_strlit("floating");
    reveal_strlit("fullscreen");
    reveal_strlit("scratchpad");
    reveal_strlit("visible");
    reveal_strlit("hidden");
    reveal_strlit("occluded");
    reveal_strlit("minimized");
    reveal_strlit("unfocused");
    reveal_strlit("idle");
    reveal_strlit("hovered");
    reveal_strlit("pressed");
    reveal_strlit("dragging");
    reveal_strlit("typing");
    reveal_strlit("active");
    reveal_strlit("stale");
    reveal_strlit("quiet");
    reveal_strlit("badge");
    reveal_strlit("highlight");
    reveal_strlit("urgent");
}

proof fn lemma_kinds(a: Attention)
    ensures
        panel_record::kind_named(panel_record::kind_text(a)) == (match a {
            Attention::Quiet => Some(panel_record::AttentionKind::Quiet),
            Attention::Badge { .. } => Some(panel_record::AttentionKind::Badge),
            Attention::Highlight => Some(panel_record::AttentionKind::Highlight),
            Attention::Urgent => Some(panel_record::AttentionKind::Urgent),
        }),
{
    reveal_strlit("quiet");
    reveal_strlit("badge");
    reveal_strlit("highlight");
    reveal_strlit("urgent");
    assert("quiet"@.len() == 5 && "badge"@.len() == 5 && "highlight"@.len() == 9
        && "urgent"@.len() == 6);
    assert("quiet"@[0] != "badge"@[0]);
}

/// The fields of a record line, in order.
spec fn record_fields(a: Axes) -> Seq<Seq<char>> {
    seq![
        field("v"@, text::decimal(panel_record::SNAPSHOT_VERSION as nat)),
        field("panel"@, text::decimal(a.panel.0 as nat)),
        field("node"@, text::decimal(a.node.0 as nat)),
        field("lifecycle"@, a.lifecycle.spelled()),
        field("presentation"@, a.presentation.spelled()),
        field("visibility"@, a.visibility.spelled()),
        field("focus"@, a.focus.spelled()),
        field("attention"@, panel_record::kind_text(a.attention)),
        field("attention_count"@, text::decimal(panel_record::badge_count(a.attention) as nat)),
        field("attention_text"@, panel_record::escaped(panel_record::badge_label(a.attention))),
        field("interaction"@, a.interaction.spelled()),
        field("activity"@, a.activity.spelled()),
    ]
}

/// The fields from the `n`th on with separators between them.
spec fn tail_line(fields: Seq<Seq<char>>, n: int) -> Seq<char>
    decreases fields.len() - n,
{
    if n < 0 || n >= fields.len() {
        Seq::empty()
    } else if n == fields.len() - 1 {
        fields[n]
    } else {
        fields[n] + seq![';'] + tail_line(fields, n + 1)
    }
}

proof fn lemma_tail_fields(fields: Seq<Seq<char>>, n: int)
    requires
        0 <= n < fields.len(),
        forall|i: int| 0 <= i < fields.len() ==> sealed(#[trigger] fields[i]),
        forall|i: int| 0 <= i < fields.len() ==> !(#[trigger] fields[i]).contains('\n'),
    ensures
        panel_record::fields_of(tail_line(fields, n)) == fields.skip(n),
        !tail_line(fields, n).contains('\n'),
    decreases fields.len() - n,
{
    assert(sealed(fields[n]));
    assert(!fields[n].contains('\n'));
    if n == fields.len() - 1 {
        lemma_first_field(fields[n], Seq::empty());
        assert(fields.skip(n) =~= seq![fields[n]]);
    } else {
        let rest = tail_line(fields, n + 1);
        lemma_tail_fields(fields, n + 1);
        lemma_first_field(fields[n], rest);
        assert(fields.skip(n) =~= seq![fields[n]] + fields.skip(n + 1));
        let s = fields[n] + seq![';'] + rest;
        assert forall|x: char| s.contains(x) implies x != '\n' by {
            let i = choose|i: int| 0 <= i < s.len() && s[i] == x;
            if i < fields[n].len() {
                assert(fields[n][i] == x);
                assert(fields[n].contains(x));
            } else if i > fields[n].len() {
                assert(rest[i - fields[n].len() - 1] == x);
                assert(rest.contains(x));
            }
        }
    }
}

#[verifier::rlimit(40)]
proof fn lemma_line_is_tail(a: Axes)
    ensures
        panel_record::record_line(a) == tail_line(record_fields(a), 0),
{
    reveal_strlit("v=");
    reveal_strlit(";panel=");
    reveal_strlit(";node=");
    reveal_strlit(";lifecycle=");
    reveal_strlit(";presentation=");
    reveal_strlit(";visibility=");
    reveal_strlit(";focus=");
    reveal_strlit(";attention=");
    reveal_strlit(";attention_count=");
    reveal_strlit(";attention_text=");
    reveal_strlit(";interaction=");
    reveal_strlit(";activity=");
    reveal_strlit("v");
    reveal_strlit("panel");
    reveal_strlit("node");
    reveal_strlit("lifecycle");
    reveal_strlit("presentation");
    reveal_strlit("visibility");
    reveal_strlit("focus");
    reveal_strlit("attention");
    reveal_strlit("attention_count");
    reveal_strlit("attention_text");
    reveal_strlit("interaction");
    reveal_strlit("activity");
    let eq = seq!['='];
    let sep = seq![';'];
    assert("v="@ =~= "v"@ + eq);
    assert(";panel="@ =~= sep + ("panel"@ + eq));
    assert(";node="@ =~= sep + ("node"@ + eq));
    assert(";lifecycle="@ =~= sep + ("lifecycle"@ + eq));
    assert(";presentation="@ =~= sep + ("presentation"@ + eq));
    assert(";visibility="@ =~= sep + ("visibility"@ + eq));
    assert(";focus="@ =~= sep + ("focus"@ + eq));
    assert(";attention="@ =~= sep + ("attention"@ + eq));
    assert(";attention_count="@ =~= sep + ("attention_count"@ + eq));
    assert(";attention_text="@ =~= sep + ("attention_text"@ + eq));
    assert(";interaction="@ =~= sep + ("interaction"@ + eq));
    assert(";activity="@ =~= sep + ("activity"@ + eq));
    let f = record_fields(a);
    reveal_with_fuel(tail_line, 13);
    let h0 = f[0];
    let h1 = h0 + sep + f[1];
    let h2 = h1 + sep + f[2];
    let h3 = h2 + sep + f[3];
    let h4 = h3 + sep + f[4];
    let h5 = h4 + sep + f[5];
    let h6 = h5 + sep + f[6];
    let h7 = h6 + sep + f[7];
    let h8 = h7 + sep + f[8];
    let h9 = h8 + sep + f[9];
    let h10 = h9 + sep + f[10];
    lemma_shift(h0, sep, "panel"@ + eq, text::decimal(a.panel.0 as nat));
    lemma_shift(h1, sep, "node"@ + eq, text::decimal(a.node.0 as nat));
    lemma_shift(h2, sep, "lifecycle"@ + eq, a.lifecycle.spelled());
    lemma_shift(h3, sep, "presentation"@ + eq, a.presentation.spelled());
    lemma_shift(h4, sep, "visibility"@ + eq, a.visibility.spelled());
    lemma_shift(h5, sep, "focus"@ + eq, a.focus.spelled());
    lemma_shift(h6, sep, "attention"@ + eq, panel_record::kind_text(a.attention));
    lemma_shift(
        h7,
        sep,
        "attention_count"@ + eq,
        text::decimal(panel_record::badge_count(a.attention) as nat),
    );
    lemma_shift(
        h8,
        sep,
        "attention_text"@ + eq,
        panel_record::escaped(panel_record::badge_label(a.attention)),
    );
    lemma_shift(h9, sep, "interaction"@ + eq, a.interaction.spelled());
    lemma_shift(h10, sep, "activity"@ + eq, a.activity.spelled());
    assert(panel_record::record_line(a) == h10 + sep + f[11]);
    let t11 = tail_line(f, 11);
    let t10 = tail_line(f, 10);
    let t9 = tail_line(f, 9);
    let t8 = tail_line(f, 8);
    let t7 = tail_line(f, 7);
    let t6 = tail_line(f, 6);
    let t5 = tail_line(f, 5);
    let t4 = tail_line(f, 4);
    let t3 = tail_line(f, 3);
    let t2 = tail_line(f, 2);
    let t1 = tail_line(f, 1);
    lemma_step(h9, sep, f[10], t11);
    lemma_step(h8, sep, f[9], t10);
    lemma_step(h7, sep, f[8], t9);
    lemma_step(h6, sep, f[7], t8);
    lemma_step(h5, sep, f[6], t7);
    lemma_step(h4, sep, f[5], t6);
    lemma_step(h3, sep, f[4], t5);
    lemma_step(h2, sep, f[3], t4);
    lemma_step(h1, sep, f[2], t3);
    lemma_step(h0, sep, f[1], t2);
}

proof fn lemma_shift(head: Seq<char>, sep: Seq<char>, key: Seq<char>, value: Seq<char>)
    ensures
        head + (sep + key) + value == head + sep + (key + value),
{
    assert(head + (sep + key) + value =~= head + sep + (key + value));
}

proof fn lemma_step(head: Seq<char>, sep: Seq<char>, f: Seq<char>, tail: Seq<char>)
    ensures
        head + sep + f + sep + tail == head + sep + (f + sep + tail),
{
    assert(head + sep + f + sep + tail =~= head + sep + (f + sep + tail));
}

/// The draft after the first `n` fields of a record line.
spec fn draft_at(a: Axes, n: int) -> panel_record::RecordDraft {
    let d = panel_record::parked_draft();
    panel_record::RecordDraft {
        panel: if n >= 2 {
            Some(a.panel.0)
        } else {
            d.panel
        },
        node: if n >= 3 {
            a.node.0
        } else {
            d.node
        },
        version: panel_record::SNAPSHOT_VERSION,
        lifecycle: if n >= 4 {
            a.lifecycle
        } else {
            d.lifecycle
        },
        presentation: if n >= 5 {
            a.presentation
        } else {
            d.presentation
        },
        visibility: if n >= 6 {
            a.visibility
        } else {
            d.visibility
        },
        focus: if n >= 7 {
            a.focus
        } else {
            d.focus
        },
        kind: if n >= 8 {
            match a.attention {
                Attention::Quiet => panel_record::AttentionKind::Quiet,
                Attention::Badge { .. } => panel_record::AttentionKind::Badge,
                Attention::Highlight => panel_record::AttentionKind::Highlight,
                Attention::Urgent => panel_record::AttentionKind::Urgent,
            }
        } else {
            d.kind
        },
        count: if n >= 9 {
            panel_record::badge_count(a.attention)
        } else {
            d.count
        },
        label: if n >= 10 {
            panel_record::badge_label(a.attention)
        } else {
            d.label
        },
        interaction: if n >= 11 {
            a.interaction
        } else {
            d.interaction
        },
        activity: if n >= 12 {
            a.activity
        } else {
            d.activity
        },
    }
}

#[verifier::rlimit(40)]
proof fn lemma_field_step(a: Axes, n: int)
    requires
        0 <= n < 12,
    ensures
        panel_record::with_field(draft_at(a, n), record_fields(a)[n]) == Ok::<
            panel_record::RecordDraft,
            panel_record::RecordFault,
        >(draft_at(a, n + 1)),
        sealed(record_fields(a)[n]),
        !record_fields(a)[n].contains('\n'),
{
    let d = draft_at(a, n);
    lemma_keys();
    lemma_key_words();
    lemma_names(a);
    lemma_kinds(a.attention);
    lemma_number_word(panel_record::SNAPSHOT_VERSION as nat);
    lemma_number_word(a.panel.0 as nat);
    lemma_number_word(a.node.0 as nat);
    lemma_number_word(panel_record::badge_count(a.attention) as nat);
    text::decimal_reads_back(panel_record::SNAPSHOT_VERSION as nat, u32::MAX as nat);
    text::decimal_reads_back(a.panel.0 as nat, u64::MAX as nat);
    text::decimal_reads_back(a.node.0 as nat, u64::MAX as nat);
    text::decimal_reads_back(panel_record::badge_count(a.attention) as nat, u32::MAX as nat);
    escapes_read_back(panel_record::badge_label(a.attention));
    panel_state::panel_lifecycle_round_trips(a.lifecycle, Seq::empty());
    panel_state::panel_visibility_round_trips(a.visibility, Seq::empty());
    panel_state::panel_focus_state_round_trips(a.focus, Seq::empty());
    panel_state::panel_interaction_round_trips(a.interaction, Seq::empty());
    panel_state::panel_activity_round_trips(a.activity, Seq::empty());
    presentation::mode_names_round_trip(a.presentation, Seq::empty());
    if n == 0 {
        lemma_word(text::decimal(panel_record::SNAPSHOT_VERSION as nat));
        lemma_field("v"@, text::decimal(panel_record::SNAPSHOT_VERSION as nat), d);
    } else if n == 1 {
        lemma_word(text::decimal(a.panel.0 as nat));
        lemma_field("panel"@, text::decimal(a.panel.0 as nat), d);
    } else if n == 2 {
        lemma_word(text::decimal(a.node.0 as nat));
        lemma_field("node"@, text::decimal(a.node.0 as nat), d);
    } else if n == 3 {
        lemma_word(a.lifecycle.spelled());
        lemma_field("lifecycle"@, a.lifecycle.spelled(), d);
    } else if n == 4 {
        lemma_word(a.presentation.spelled());
        lemma_field("presentation"@, a.presentation.spelled(), d);
    } else if n == 5 {
        lemma_word(a.visibility.spelled());
        lemma_field("visibility"@, a.visibility.spelled(), d);
    } else if n == 6 {
        lemma_word(a.focus.spelled());
        lemma_field("focus"@, a.focus.spelled(), d);
    } else if n == 7 {
        lemma_word(panel_record::kind_text(a.attention));
        lemma_field("attention"@, panel_record::kind_text(a.attention), d);
    } else if n == 8 {
        lemma_word(text::decimal(panel_record::badge_count(a.attention) as nat));
        lemma_field(
            "attention_count"@,
            text::decimal(panel_record::badge_count(a.attention) as nat),
            d,
        );
    } else if n == 9 {
        lemma_field(
            "attention_text"@,
            panel_record::escaped(panel_record::badge_label(a.attention)),
            d,
        );
    } else if n == 10 {
        lemma_word(a.interaction.spelled());
        lemma_field("interaction"@, a.interaction.spelled(), d);
    } else {
        lemma_word(a.activity.spelled());
        lemma_field("activity"@, a.activity.spelled(), d);
    }
}

proof fn lemma_drafted(a: Axes, n: int)
    requires
        0 <= n <= 12,
    ensures
        panel_record::drafted(record_fields(a).take(n)) == Ok::<
            panel_record::RecordDraft,
            panel_record::RecordFault,
        >(draft_at(a, n)),
    decreases n,
{
    let fields = record_fields(a);
    if n > 0 {
        lemma_drafted(a, n - 1);
        lemma_field_step(a, n - 1);
        assert(fields.take(n).drop_last() =~= fields.take(n - 1));
        assert(fields.take(n).last() == fields[n - 1]);
    }
}

proof fn lemma_line_len(a: Axes)
    requires
        a.attention.bounded(),
    ensures
        panel_record::record_line(a).len() <= panel_record::MAX_RECORD_LEN,
{
    reveal_strlit("v=");
    reveal_strlit(";panel=");
    reveal_strlit(";node=");
    reveal_strlit(";lifecycle=");
    reveal_strlit(";presentation=");
    reveal_strlit(";visibility=");
    reveal_strlit(";focus=");
    reveal_strlit(";attention=");
    reveal_strlit(";attention_count=");
    reveal_strlit(";attention_text=");
    reveal_strlit(";interaction=");
    reveal_strlit(";activity=");
    lemma_names(a);
    text::lemma_decimal_len_u64(panel_record::SNAPSHOT_VERSION as u64);
    text::lemma_decimal_len_u64(a.panel.0);
    text::lemma_decimal_len_u64(a.node.0);
    text::lemma_decimal_len_u64(panel_record::badge_count(a.attention) as u64);
    escapes_read_back(panel_record::badge_label(a.attention));
}

/// The line of a record reads back as the record, when the badge label keeps
/// its bound. The line holds no line feed, and it neither starts nor ends with
/// white space or as a comment.
pub proof fn records_read_back(a: Axes)
    requires
        a.attention.bounded(),
    ensures
        panel_record::record_read(panel_record::record_line(a)) == Ok::<
            Axes,
            panel_record::RecordFault,
        >(a),
        !panel_record::record_line(a).contains('\n'),
        panel_record::record_line(a).len() > 0,
        panel_record::record_line(a)[0] == 'v',
        !text::is_space(panel_record::record_line(a).last()),
{
    let fields = record_fields(a);
    let line = panel_record::record_line(a);
    lemma_line_is_tail(a);
    lemma_line_len(a);
    assert forall|i: int| 0 <= i < fields.len() implies sealed(#[trigger] fields[i]) by {
        lemma_field_step(a, i);
    }
    assert forall|i: int| 0 <= i < fields.len() implies !(#[trigger] fields[i]).contains('\n') by {
        lemma_field_step(a, i);
    }
    lemma_tail_fields(fields, 0);
    assert(fields.skip(0) =~= fields);
    assert(fields.take(12) =~= fields);
    lemma_drafted(a, 12);
    reveal_strlit("v=");
    assert(line[0] == 'v');
    lemma_names(a);
    lemma_word(a.activity.spelled());
    assert(line.last() == a.activity.spelled().last());
}

/// A field that says nothing known: it is empty, or its key is unknown.
pub open spec fn is_ignored(field: Seq<char>) -> bool {
    let k = text::index_of(field, '=');
    field.len() == 0 || (k < field.len() && panel_record::key_named(field.take(k)) is Unknown)
}

proof fn lemma_end_before(s: Seq<char>, more: Seq<char>)
    requires
        s.len() > 0 ==> s.last() != '\\',
    ensures
        panel_record::field_end(s + seq![';'] + more) == panel_record::field_end(s),
    decreases s.len(),
{
    let whole = s + seq![';'] + more;
    if s.len() > 0 && s[0] != ';' {
        if s[0] == '\\' && s.len() >= 2 {
            lemma_end_before(s.skip(2), more);
            assert(whole.skip(2) =~= s.skip(2) + seq![';'] + more);
        } else {
            lemma_end_before(s.drop_first(), more);
            assert(whole.drop_first() =~= s.drop_first() + seq![';'] + more);
        }
    }
}

/// Fields appended to a line are the last fields of the longer line, unless the
/// line ends with a backslash.
pub proof fn appended_fields_come_last(s: Seq<char>, more: Seq<char>)
    requires
        s.len() > 0 ==> s.last() != '\\',
    ensures
        panel_record::fields_of(s + seq![';'] + more) == panel_record::fields_of(s)
            + panel_record::fields_of(more),
    decreases s.len(),
{
    let whole = s + seq![';'] + more;
    let k = panel_record::field_end(s);
    lemma_end_before(s, more);
    panel_record::field_end_in_range(s);
    if k >= s.len() {
        assert(whole.take(k) =~= s);
        assert(whole.skip(k + 1) =~= more);
    } else {
        let rest = s.skip(k + 1);
        appended_fields_come_last(rest, more);
        assert(whole.take(k) =~= s.take(k));
        assert(whole.skip(k + 1) =~= rest + seq![';'] + more);
        assert(panel_record::fields_of(whole) =~= panel_record::fields_of(s)
            + panel_record::fields_of(more));
    }
}

proof fn lemma_ignored(fields: Seq<Seq<char>>, more: Seq<Seq<char>>)
    requires
        forall|i: int| 0 <= i < more.len() ==> is_ignored(#[trigger] more[i]),
    ensures
        panel_record::drafted(fields + more) == panel_record::drafted(fields),
    decreases more.len(),
{
    if more.len() == 0 {
        assert(fields + more =~= fields);
    } else {
        let front = more.drop_last();
        assert forall|i: int| 0 <= i < front.len() implies is_ignored(#[trigger] front[i]) by {
            assert(front[i] == more[i]);
        }
        lemma_ignored(fields, front);
        assert((fields + more).drop_last() =~= fields + front);
        assert((fields + more).last() == more[more.len() - 1]);
    }
}

/// Unknown fields appended to a line leave its reading as it was, as long as
/// the line stays within its bound and did not end with a backslash.
pub proof fn unknown_fields_change_nothing(line: Seq<char>, more: Seq<char>)
    requires
        line.len() + 1 + more.len() <= panel_record::MAX_RECORD_LEN,
        line.len() > 0 ==> line.last() != '\\',
        forall|i: int|
            0 <= i < panel_record::fields_of(more).len() ==> is_ignored(
                #[trigger] panel_record::fields_of(more)[i],
            ),
    ensures
        panel_record::record_read(line + seq![';'] + more) == panel_record::record_read(line),
{
    appended_fields_come_last(line, more);
    lemma_ignored(panel_record::fields_of(line), panel_record::fields_of(more));
}

/// The line of a record with unknown fields behind it reads back as the record.
pub proof fn records_read_back_before_unknown_fields(a: Axes, more: Seq<char>)
    requires
        a.attention.bounded(),
        panel_record::record_line(a).len() + 1 + more.len() <= panel_record::MAX_RECORD_LEN,
        forall|i: int|
            0 <= i < panel_record::fields_of(more).len() ==> is_ignored(
                #[trigger] panel_record::fields_of(more)[i],
            ),
    ensures
        panel_record::record_read(panel_record::record_line(a) + seq![';'] + more) == Ok::<
            Axes,
            panel_record::RecordFault,
        >(a),
{
    records_read_back(a);
    lemma_names(a);
    let word = a.activity.spelled();
    let line = panel_record::record_line(a);
    assert(line.last() == word.last());
    assert(text::is_lower(word[word.len() - 1]) || text::is_digit(word[word.len() - 1])
        || word[word.len() - 1] == '_');
    unknown_fields_change_nothing(line, more);
}

/// A record that names its panel and nothing else comes back as a panel that was
/// just declared.
pub proof fn bare_records_are_fresh_panels(n: u64)
    ensures
        panel_record::finished(
            RecordDraft { panel: Some(n), ..panel_record::parked_draft() },
        ) == Ok::<Axes, RecordFault>(Axes::fresh(PanelId(n), UiNodeId(0))),
{
}

/// A record is made of what its fields say: it is of version 1, names its panel,
/// and the text of a badge has at most 64 characters.
pub proof fn records_are_made_of_their_fields(d: RecordDraft)
    ensures
        match panel_record::finished(d) {
            Ok(a) => {
                &&& d.version == 1 && d.panel == Some(a.panel.0) && a.node.0 == d.node
                &&& a.lifecycle == d.lifecycle && a.presentation == d.presentation
                &&& a.visibility == d.visibility && a.focus == d.focus
                &&& a.interaction == d.interaction && a.activity == d.activity
                &&& match a.attention {
                    Attention::Quiet => d.kind is Quiet,
                    Attention::Badge { count, label } => d.kind is Badge && count == d.count
                        && label == d.label && label.len() <= 64,
                    Attention::Highlight => d.kind is Highlight,
                    Attention::Urgent => d.kind is Urgent,
                }
            },
            Err(RecordFault::Version(v)) => v == d.version && v != 1,
            Err(RecordFault::Malformed) => d.version == 1 && d.panel is None,
            Err(RecordFault::BadValue(_)) => d.version == 1 && d.panel is Some && d.kind is Badge
                && d.label.len() > 64,
            Err(_) => false,
        },
{
}

/// A backslash goes before every backslash, separator and equals sign of a text,
/// a line feed is written as a backslash and an `n`, and every other character as
/// it is.
pub proof fn escapes_guard_the_separators(s: Seq<char>, c: char)
    ensures
        panel_record::escaped(Seq::empty()) == Seq::<char>::empty(),
        c == '\\' || c == ';' || c == '=' ==> panel_record::escaped(s.push(c))
            == panel_record::escaped(s).push('\\').push(c),
        c == '\n' ==> panel_record::escaped(s.push(c)) == panel_record::escaped(s).push(
            '\\',
        ).push('n'),
        c != '\\' && c != ';' && c != '=' && c != '\n' ==> panel_record::escaped(s.push(c))
            == panel_record::escaped(s).push(c),
{
    assert(s.push(c).drop_last() =~= s);
    let all = panel_record::escaped(s.push(c));
    let head = panel_record::escaped(s);
    assert(all == head + panel_record::escaped_char(c));
    if c == '\\' || c == ';' || c == '=' {
        assert(all =~= head.push('\\').push(c));
    } else if c == '\n' {
        assert(all =~= head.push('\\').push('n'));
    } else {
        assert(all =~= head.push(c));
    }
}

/// An escape stands for the character behind its backslash, and for a line feed
/// when that is an `n`; no other character may be escaped, nor may a text end in
/// the middle of an escape.
pub proof fn escapes_stand_for_one_character(c: char, rest: Seq<char>)
    ensures
        c != '\\' ==> panel_record::unescaped(seq![c] + rest) == (
        match panel_record::unescaped(rest) {
            Some(t) => Some(seq![c] + t),
            None => None,
        }),
        c == '\\' || c == ';' || c == '=' ==> panel_record::unescaped(seq!['\\', c] + rest) == (
        match panel_record::unescaped(rest) {
            Some(t) => Some(seq![c] + t),
            None => None,
        }),
        panel_record::unescaped(seq!['\\', 'n'] + rest) == (match panel_record::unescaped(rest) {
            Some(t) => Some(seq!['\n'] + t),
            None => None,
        }),
        c != '\\' && c != ';' && c != '=' && c != 'n' ==> panel_record::unescaped(
            seq!['\\', c] + rest,
        ) is None,
        panel_record::unescaped(seq!['\\']) is None,
{
    let one = seq![c] + rest;
    let two = seq!['\\', c] + rest;
    let feed = seq!['\\', 'n'] + rest;
    assert(one.drop_first() =~= rest);
    assert(two.skip(2) =~= rest);
    assert(feed.skip(2) =~= rest);
    assert(two[0] == '\\' && two[1] == c);
    assert(feed[0] == '\\' && feed[1] == 'n');
    assert(one[0] == c);
}

/// A record ends its fields at separators that are not escaped: the first one
/// splits off the field before it.
pub proof fn fields_end_at_bare_separators(c: char, s: Seq<char>)
    ensures
        panel_record::field_end(Seq::empty()) == 0,
        panel_record::field_end(seq![';'] + s) == 0,
        panel_record::field_end(seq!['\\', c] + s) == 2 + panel_record::field_end(s),
        c != ';' && c != '\\' ==> panel_record::field_end(seq![c] + s) == 1
            + panel_record::field_end(s),
        panel_record::field_end(s) >= s.len() ==> panel_record::fields_of(s) == seq![s],
        panel_record::field_end(s) < s.len() ==> panel_record::fields_of(s) == seq![
            s.take(panel_record::field_end(s)),
        ] + panel_record::fields_of(s.skip(panel_record::field_end(s) + 1)),
{
    let one = seq![c] + s;
    let two = seq!['\\', c] + s;
    let sep = seq![';'] + s;
    assert(one.drop_first() =~= s);
    assert(two.skip(2) =~= s);
    assert(two[0] == '\\');
    assert(sep[0] == ';');
    assert(one[0] == c);
}

/// A record of more than 2048 characters is not read at all.
pub proof fn long_records_are_refused(line: Seq<char>)
    ensures
        line.len() > 2048 ==> panel_record::record_read(line) == Err::<Axes, RecordFault>(
            RecordFault::TooLong(line.len()),
        ),
        line.len() <= 2048 ==> panel_record::record_read(line) == (
        match panel_record::drafted(panel_record::fields_of(line)) {
            Ok(d) => panel_record::finished(d),
            Err(fault) => Err(fault),
        }),
{
}

/// How a record is written: its fields in a fixed order, each under its own key,
/// with separators between them.
pub proof fn records_are_written_in_order(a: Axes)
    ensures
        ({
            let (kind, count, label) = match a.attention {
                Attention::Quiet => ("quiet"@, 0u32, Seq::<char>::empty()),
                Attention::Badge { count, label } => ("badge"@, count, label),
                Attention::Highlight => ("highlight"@, 0u32, Seq::<char>::empty()),
                Attention::Urgent => ("urgent"@, 0u32, Seq::<char>::empty()),
            };
            let place = "v="@ + text::decimal(1) + ";panel="@ + text::decimal(a.panel.0 as nat)
                + ";node="@ + text::decimal(a.node.0 as nat);
            let axes = place + ";lifecycle="@ + a.lifecycle.spelled() + ";presentation="@
                + a.presentation.spelled() + ";visibility="@ + a.visibility.spelled() + ";focus="@
                + a.focus.spelled();
            let badge = axes + ";attention="@ + kind + ";attention_count="@ + text::decimal(
                count as nat,
            ) + ";attention_text="@ + panel_record::escaped(label);
            panel_record::record_line(a) == badge + ";interaction="@ + a.interaction.spelled()
                + ";activity="@ + a.activity.spelled()
        }),
{
}

} // verus!
