//! Qualified panel commands `owner.name:command` and the registry of their
//! owners.

use crate::panel::PanelId;
use crate::provider;
use crate::seqs;
use crate::text;
use vstd::prelude::*;
use vstd::string::*;

verus! {

/// Most commands of one panel.
pub const MAX_COMMANDS_PER_PANEL_TYPE: usize = 32;

/// Longest qualified command in bytes.
pub const MAX_COMMAND_LEN: usize = 128;

/// A character of a command name.
pub open spec fn command_char(c: char) -> bool {
    text::is_lower(c) || text::is_digit(c) || c == '_' || c == '.' || c == '-'
}

/// A command name: `[a-z][a-z0-9_.-]*`.
pub open spec fn is_command_name(s: Seq<char>) -> bool {
    &&& s.len() > 0
    &&& text::is_lower(s[0])
    &&& forall|i: int| 0 <= i < s.len() ==> command_char(#[trigger] s[i])
}

/// Why a segment of the owner is malformed.
pub open spec fn segment_fault(s: Seq<char>) -> Option<Seq<char>> {
    if s.len() == 0 {
        Some("owner segment empty"@)
    } else if text::byte_len(s) > 32 {
        Some("owner segment exceeds 32 bytes"@)
    } else if !text::is_lower(s[0]) {
        Some("owner segment must start with lowercase letter"@)
    } else if !(forall|i: int| 0 <= i < s.len() ==> provider::segment_char(#[trigger] s[i])) {
        Some("owner segment must be [a-z0-9_-]"@)
    } else {
        None
    }
}

/// Why a qualified command is malformed, `None` for a well-formed one.
pub open spec fn command_fault(s: Seq<char>) -> Option<Seq<char>> {
    let k = text::index_of(s, ':');
    let name = s.skip(k + 1);
    let owner = text::pieces(s.take(k), '.');
    if s.len() == 0 {
        Some("command must not be empty"@)
    } else if text::byte_len(s) > MAX_COMMAND_LEN {
        Some("command exceeds 128 bytes"@)
    } else if k >= s.len() {
        Some("command must contain ':' as owner.name:command"@)
    } else if name.len() == 0 {
        Some("command name must not be empty"@)
    } else if text::byte_len(name) > 64 {
        Some("command name exceeds 64 bytes"@)
    } else if !(forall|i: int| 0 <= i < name.len() ==> command_char(#[trigger] name[i])) {
        Some("command name must be [a-z0-9_.-]"@)
    } else if !text::is_lower(name[0]) {
        Some("command name must start with lowercase letter"@)
    } else if owner.len() != 2 {
        Some("owner must be owner.name (two dot segments)"@)
    } else if segment_fault(owner[0]) is Some {
        segment_fault(owner[0])
    } else {
        segment_fault(owner[1])
    }
}

/// A qualified command reads `owner.name:command`, with `[a-z][a-z0-9_-]*` of
/// at most 32 characters for both segments and `[a-z][a-z0-9_.-]*` of at most
/// 64 behind the colon.
pub proof fn commands_follow_the_grammar(s: Seq<char>)
    requires
        command_fault(s) is None,
    ensures
        s.len() <= MAX_COMMAND_LEN,
        exists|a: Seq<char>, b: Seq<char>, c: Seq<char>|
            #![trigger provider::is_segment(a), provider::is_segment(b), is_command_name(c)]
            s == a + seq!['.'] + b + seq![':'] + c && provider::is_segment(a)
                && provider::is_segment(b) && is_command_name(c) && c.len() <= 64,
{
    let k = text::index_of(s, ':');
    text::index_of_is_first(s, ':');
    let head = s.take(k);
    let name = s.skip(k + 1);
    let owner = text::pieces(head, '.');
    let a = owner[0];
    let b = owner[1];
    lemma_two_pieces(head, '.');
    lemma_ascii_len(name);
    lemma_ascii_len(a);
    lemma_ascii_len(b);
    assert(head =~= a + seq!['.'] + b);
    assert(s =~= head + seq![':'] + name);
    assert(provider::is_segment(a) && provider::is_segment(b) && is_command_name(name));
    assert forall|i: int| 0 <= i < s.len() implies (#[trigger] s[i]) as u32 <= 127 by {
        if i < k {
            assert(s[i] == head[i]);
            if i < a.len() {
                assert(head[i] == a[i]);
            } else if i > a.len() {
                assert(head[i] == b[i - a.len() - 1]);
            }
        } else if i > k {
            assert(s[i] == name[i - k - 1]);
        }
    }
    vstd::utf8::is_ascii_chars_encode_utf8(s);
    assert(s == a + seq!['.'] + b + seq![':'] + name);
}

/// Whatever reads `owner.name:command` within the limits is a qualified
/// command.
pub proof fn the_grammar_makes_commands(a: Seq<char>, b: Seq<char>, c: Seq<char>)
    requires
        provider::is_segment(a),
        provider::is_segment(b),
        is_command_name(c),
        c.len() <= 64,
        a.len() + b.len() + c.len() + 2 <= MAX_COMMAND_LEN,
    ensures
        command_fault(a + seq!['.'] + b + seq![':'] + c) is None,
{
    let head = a + seq!['.'] + b;
    let s = head + seq![':'] + c;
    assert forall|i: int| 0 <= i < head.len() implies provider::segment_char(#[trigger] head[i])
        || head[i] == '.' by {
        if i < a.len() {
            assert(head[i] == a[i]);
        } else if i > a.len() {
            assert(head[i] == b[i - a.len() - 1]);
        }
    }
    assert forall|i: int| 0 <= i < s.len() implies (#[trigger] s[i]) as u32 <= 127 by {
        if i < head.len() {
            assert(s[i] == head[i]);
        } else if i > head.len() {
            assert(s[i] == c[i - head.len() - 1]);
        }
    }
    assert(vstd::utf8::is_ascii_chars(s));
    vstd::utf8::is_ascii_chars_encode_utf8(s);
    text::index_of_unique(s, ':', head.len() as int);
    assert(s.take(head.len() as int) =~= head);
    assert(s.skip(head.len() as int + 1) =~= c);
    text::index_of_unique(head, '.', a.len() as int);
    assert(head.take(a.len() as int) =~= a);
    assert(head.skip(a.len() as int + 1) =~= b);
    text::index_of_unique(b, '.', b.len() as int);
    assert(text::pieces(b, '.') =~= seq![b]);
    assert(text::pieces(head, '.') =~= seq![a, b]);
    lemma_ascii_len(a);
    lemma_ascii_len(b);
    lemma_ascii_len(c);
}

proof fn lemma_ascii_len(s: Seq<char>)
    requires
        forall|i: int| 0 <= i < s.len() ==> provider::segment_char(#[trigger] s[i]) || command_char(s[i]),
    ensures
        text::byte_len(s) == s.len(),
{
    assert(vstd::utf8::is_ascii_chars(s));
    vstd::utf8::is_ascii_chars_encode_utf8(s);
}

/// Two pieces stand on both sides of one separator.
proof fn lemma_two_pieces(s: Seq<char>, sep: char)
    requires
        text::pieces(s, sep).len() == 2,
    ensures
        s == text::pieces(s, sep)[0] + seq![sep] + text::pieces(s, sep)[1],
{
    let k = text::index_of(s, sep);
    text::index_of_is_first(s, sep);
    let rest = s.skip(k + 1);
    let m = text::index_of(rest, sep);
    text::index_of_is_first(rest, sep);
    assert(text::pieces(s, sep) =~= seq![s.take(k)] + text::pieces(rest, sep));
    assert(text::pieces(rest, sep).len() == 1);
    if m < rest.len() {
        lemma_pieces_some(rest.skip(m + 1), sep);
        assert(text::pieces(rest, sep) =~= seq![rest.take(m)] + text::pieces(
            rest.skip(m + 1),
            sep,
        ));
    }
    assert(text::pieces(rest, sep) =~= seq![rest]);
    assert(s =~= s.take(k) + seq![sep] + rest);
}

proof fn lemma_pieces_some(s: Seq<char>, sep: char)
    ensures
        text::pieces(s, sep).len() >= 1,
{
    text::index_of_is_first(s, sep);
}

/// Qualified command name `owner.name:command`.
#[derive(Debug, PartialEq, Eq, Hash, PartialOrd, Ord)]
pub struct QualifiedCommand(String);

impl View for QualifiedCommand {
    type V = Seq<char>;

    closed spec fn view(&self) -> Seq<char> {
        self.0@
    }
}

impl QualifiedCommand {
    #[verifier::type_invariant]
    spec fn well_formed(self) -> bool {
        command_fault(self.0@) is None
    }

    /// Checks `owner.name:command` against
    /// `^[a-z][a-z0-9_-]*\.[a-z][a-z0-9_-]*:[a-z][a-z0-9_.-]*$` and the length
    /// limits.
    pub fn parse(raw: &str) -> (r: Result<Self, CommandError>)
        ensures
            match r {
                Ok(c) => command_fault(raw@) is None && c@ == raw@,
                Err(CommandError::Invalid(why)) => command_fault(raw@) == Some(why@),
                Err(_) => false,
            },
    {
        if raw.is_empty() {
            return invalid("command must not be empty");
        }
        if text::byte_count(raw) > MAX_COMMAND_LEN {
            return invalid("command exceeds 128 bytes");
        }
        let chars = text::chars_of(raw);
        let k: usize = text::find_char(chars.as_slice(), ':');
        if k >= chars.len() {
            return invalid("command must contain ':' as owner.name:command");
        }
        let name = text::part_of(chars.as_slice(), k + 1, chars.len());
        let head = text::part_of(chars.as_slice(), 0, k);
        assert(name@ =~= raw@.skip(k + 1));
        assert(head@ =~= raw@.take(k as int));
        if name.len() == 0 {
            return invalid("command name must not be empty");
        }
        if text::byte_count(text::string_of(name.as_slice()).as_str()) > 64 {
            return invalid("command name exceeds 64 bytes");
        }
        if !all_command_chars(&name) {
            return invalid("command name must be [a-z0-9_.-]");
        }
        let first: char = name[0];
        if !('a' <= first && first <= 'z') {
            return invalid("command name must start with lowercase letter");
        }
        let parts = text::split_at_each(head.as_slice(), '.');
        assert(parts@.len() == text::texts(parts@).len());
        if parts.len() != 2 {
            return invalid("owner must be owner.name (two dot segments)");
        }
        assert(text::texts(parts@)[0] == parts@[0]@);
        assert(text::texts(parts@)[1] == parts@[1]@);
        if let Some(why) = check_segment(&parts[0]) {
            return invalid(why);
        }
        if let Some(why) = check_segment(&parts[1]) {
            return invalid(why);
        }
        Ok(Self(raw.to_owned()))
    }

    /// The spelling of the command.
    #[must_use]
    pub fn as_str(&self) -> (s: &str)
        ensures
            s@ == self@,
            command_fault(self@) is None,
    {
        proof {
            use_type_invariant(self);
        }
        self.0.as_str()
    }

    /// Spells the command for messages.
    #[must_use]
    pub fn text(&self) -> (out: String)
        ensures
            out@ == self@,
    {
        self.0.clone()
    }
}

impl Clone for QualifiedCommand {
    fn clone(&self) -> (c: Self)
        ensures
            c@ == self@,
    {
        proof {
            use_type_invariant(self);
        }
        Self(self.0.clone())
    }
}

fn invalid(why: &'static str) -> (r: Result<QualifiedCommand, CommandError>)
    ensures
        r matches Err(CommandError::Invalid(w)) && w@ == why@,
{
    Err(CommandError::Invalid(why.to_owned()))
}

fn all_command_chars(name: &Vec<char>) -> (yes: bool)
    ensures
        yes == (forall|i: int| 0 <= i < name@.len() ==> command_char(#[trigger] name@[i])),
{
    let mut i: usize = 0;
    while i < name.len()
        invariant
            0 <= i <= name.len(),
            forall|j: int| 0 <= j < i ==> command_char(#[trigger] name@[j]),
        decreases name.len() - i,
    {
        let c: char = name[i];
        if !(('a' <= c && c <= 'z') || ('0' <= c && c <= '9') || c == '_' || c == '.' || c == '-') {
            assert(!command_char(name@[i as int]));
            return false;
        }
        i = i + 1;
    }
    true
}

fn check_segment(seg: &Vec<char>) -> (why: Option<&'static str>)
    ensures
        match why {
            Some(w) => segment_fault(seg@) == Some(w@),
            None => segment_fault(seg@) is None,
        },
{
    if seg.len() == 0 {
        return Some("owner segment empty");
    }
    if text::byte_count(text::string_of(seg.as_slice()).as_str()) > 32 {
        return Some("owner segment exceeds 32 bytes");
    }
    let first: char = seg[0];
    if !('a' <= first && first <= 'z') {
        return Some("owner segment must start with lowercase letter");
    }
    let mut i: usize = 0;
    while i < seg.len()
        invariant
            0 <= i <= seg.len(),
            seg.len() > 0,
            text::byte_len(seg@) <= 32,
            text::is_lower(seg@[0]),
            forall|j: int| 0 <= j < i ==> provider::segment_char(#[trigger] seg@[j]),
        decreases seg.len() - i,
    {
        let c: char = seg[i];
        if !(('a' <= c && c <= 'z') || ('0' <= c && c <= '9') || c == '-' || c == '_') {
            assert(!provider::segment_char(seg@[i as int]));
            return Some("owner segment must be [a-z0-9_-]");
        }
        i = i + 1;
    }
    None
}

/// Refusal of a command.
#[derive(Debug, Clone, PartialEq, Eq)]
pub enum CommandError {
    /// The spelling violates the grammar.
    Invalid(String),
    /// The command already has an owner.
    Duplicate { command: String, owner: PanelId },
    /// The panel has as many commands as it may.
    TooManyCommands { max: usize, current: usize },
}

impl CommandError {
    /// The message of the error.
    pub open spec fn spelled(self) -> Seq<char> {
        match self {
            CommandError::Invalid(why) => "invalid command: "@ + why@,
            CommandError::Duplicate { command, owner } => "duplicate command '"@ + command@
                + "' already owned by "@ + owner.spelled(),
            CommandError::TooManyCommands { max, current } => "too many commands: max "@
                + text::decimal(max as nat) + ", current "@ + text::decimal(current as nat),
        }
    }

    /// Spells the error.
    #[must_use]
    pub fn text(&self) -> (out: String)
        ensures
            out@ == self.spelled(),
    {
        match self {
            Self::Invalid(why) => text::joined("invalid command: ", why.as_str()),
            Self::Duplicate { command, owner } => {
                let mut out = text::joined3(
                    "duplicate command '",
                    command.as_str(),
                    "' already owned by ",
                );
                out.append(owner.text().as_str());
                out
            },
            Self::TooManyCommands { max, current } => text::ending_numbers(
                "too many commands: max ",
                *max as u64,
                ", current ",
                *current as u64,
            ),
        }
    }
}

/// A command and its owner.
pub ghost struct Binding {
    /// The qualified command.
    pub command: Seq<char>,
    /// The panel that registered it.
    pub owner: PanelId,
}

/// The condition of being the binding of a command.
pub open spec fn binds(command: Seq<char>) -> spec_fn(Binding) -> bool {
    |b: Binding| b.command == command
}

/// The condition of belonging to a panel.
pub open spec fn owned_by(panel: PanelId) -> spec_fn(Binding) -> bool {
    |b: Binding| b.owner == panel
}

/// The condition of belonging to another panel.
pub open spec fn not_owned_by(panel: PanelId) -> spec_fn(Binding) -> bool {
    |b: Binding| b.owner != panel
}

/// The owner of a command.
pub open spec fn owner_in(bindings: Seq<Binding>, command: Seq<char>) -> Option<PanelId> {
    match seqs::find_where(bindings, binds(command)) {
        Some(b) => Some(b.owner),
        None => None,
    }
}

/// The commands of a panel in order of registration.
pub open spec fn commands_in(bindings: Seq<Binding>, panel: PanelId) -> Seq<Seq<char>> {
    seqs::kept(bindings, owned_by(panel)).map_values(|b: Binding| b.command)
}

/// No command is bound twice, and no panel holds more than its share.
pub open spec fn well_bound(bindings: Seq<Binding>) -> bool {
    &&& forall|i: int, j: int|
        0 <= i < j < bindings.len() ==> (#[trigger] bindings[i]).command != (
        #[trigger] bindings[j]).command
    &&& forall|p: PanelId|
        #[trigger]
        seqs::count_where(bindings, owned_by(p)) <= MAX_COMMANDS_PER_PANEL_TYPE
}

/// One registered command.
#[derive(Debug)]
pub struct Entry {
    command: String,
    owner: PanelId,
}

impl Entry {
    /// The binding that the entry stands for.
    pub closed spec fn binding(self) -> Binding {
        Binding { command: self.command@, owner: self.owner }
    }
}

/// Command registry of a window.
#[derive(Debug)]
pub struct CommandRegistry {
    entries: Vec<Entry>,
}

impl CommandRegistry {
    /// The bindings in order of registration.
    pub closed spec fn bindings(self) -> Seq<Binding> {
        self.entries@.map_values(|e: Entry| e.binding())
    }

    /// Every command has one owner, and no panel holds more than its share.
    pub open spec fn wf(self) -> bool {
        well_bound(self.bindings())
    }

    /// Creates an empty registry.
    #[must_use]
    pub fn new() -> (r: Self)
        ensures
            r.wf(),
            r.bindings() == Seq::<Binding>::empty(),
    {
        let r = Self { entries: Vec::new() };
        assert(r.bindings() =~= Seq::<Binding>::empty());
        r
    }

    fn position(&self, command: &str) -> (k: usize)
        ensures
            k == seqs::first_where(self.bindings(), binds(command@)),
            k <= self.entries@.len(),
    {
        let mut i: usize = 0;
        while i < self.entries.len()
            invariant
                0 <= i <= self.entries.len(),
                forall|j: int| 0 <= j < i ==> !binds(command@)(#[trigger] self.bindings()[j]),
            decreases self.entries.len() - i,
        {
            if text::same_text(self.entries[i].command.as_str(), command) {
                proof {
                    seqs::first_where_unique(self.bindings(), binds(command@), i as int);
                }
                return i;
            }
            i = i + 1;
        }
        proof {
            seqs::first_where_unique(self.bindings(), binds(command@), i as int);
        }
        i
    }

    fn count_of(&self, panel: PanelId) -> (n: usize)
        ensures
            n == seqs::count_where(self.bindings(), owned_by(panel)),
    {
        let mut n: usize = 0;
        let mut i: usize = 0;
        while i < self.entries.len()
            invariant
                0 <= n <= i <= self.entries.len(),
                n == seqs::count_where(self.bindings().take(i as int), owned_by(panel)),
            decreases self.entries.len() - i,
        {
            assert(self.bindings().take(i + 1).drop_last() =~= self.bindings().take(i as int));
            if self.entries[i].owner == panel {
                n = n + 1;
            }
            i = i + 1;
        }
        assert(self.bindings().take(i as int) =~= self.bindings());
        n
    }

    /// Registers a command for a panel. A malformed command, one that has an
    /// owner and one beyond the share of the panel are refused, in this order,
    /// and change nothing.
    pub fn register(&mut self, panel_id: PanelId, raw: &str) -> (r: Result<
        QualifiedCommand,
        CommandError,
    >)
        requires
            old(self).wf(),
        ensures
            final(self).wf(),
            match r {
                Ok(c) => {
                    &&& command_fault(raw@) is None
                    &&& owner_in(old(self).bindings(), raw@) is None
                    &&& seqs::count_where(old(self).bindings(), owned_by(panel_id))
                        < MAX_COMMANDS_PER_PANEL_TYPE
                    &&& c@ == raw@
                    &&& final(self).bindings() == old(self).bindings().push(
                        Binding { command: raw@, owner: panel_id },
                    )
                },
                Err(e) => {
                    &&& final(self).bindings() == old(self).bindings()
                    &&& match e {
                        CommandError::Invalid(why) => command_fault(raw@) == Some(why@),
                        CommandError::Duplicate { command, owner } => command_fault(raw@) is None
                            && command@ == raw@ && owner_in(old(self).bindings(), raw@) == Some(
                            owner,
                        ),
                        CommandError::TooManyCommands { max, current } => command_fault(raw@) is None
                            && owner_in(old(self).bindings(), raw@) is None && max
                            == MAX_COMMANDS_PER_PANEL_TYPE && current == max && current
                            == seqs::count_where(old(self).bindings(), owned_by(panel_id)),
                    }
                },
            },
    {
        let qc = match QualifiedCommand::parse(raw) {
            Ok(c) => c,
            Err(e) => return Err(e),
        };
        let k: usize = self.position(raw);
        proof {
            seqs::first_where_is_first(self.bindings(), binds(raw@));
        }
        if k < self.entries.len() {
            return Err(
                CommandError::Duplicate { command: raw.to_owned(), owner: self.entries[k].owner },
            );
        }
        let count: usize = self.count_of(panel_id);
        if count >= MAX_COMMANDS_PER_PANEL_TYPE {
            return Err(
                CommandError::TooManyCommands { max: MAX_COMMANDS_PER_PANEL_TYPE, current: count },
            );
        }
        let ghost before = self.bindings();
        let ghost added = Binding { command: raw@, owner: panel_id };
        self.entries.push(Entry { command: raw.to_owned(), owner: panel_id });
        assert(self.bindings() =~= before.push(added));
        assert forall|p: PanelId|
            #[trigger]
            seqs::count_where(self.bindings(), owned_by(p)) <= MAX_COMMANDS_PER_PANEL_TYPE by {
            seqs::count_where_push(before, owned_by(p), added);
        }
        Ok(qc)
    }

    /// The owner of a command.
    #[must_use]
    pub fn owner_of(&self, command: &str) -> (owner: Option<PanelId>)
        ensures
            owner == owner_in(self.bindings(), command@),
    {
        let k: usize = self.position(command);
        if k < self.entries.len() {
            Some(self.entries[k].owner)
        } else {
            None
        }
    }

    /// The commands of a panel in order of registration.
    #[must_use]
    pub fn commands_for(&self, panel_id: PanelId) -> (out: Vec<String>)
        ensures
            out@.map_values(|s: String| s@) == commands_in(self.bindings(), panel_id),
    {
        let mut out: Vec<String> = Vec::new();
        let mut i: usize = 0;
        assert(out@.map_values(|s: String| s@) =~= commands_in(
            self.bindings().take(0),
            panel_id,
        ));
        while i < self.entries.len()
            invariant
                0 <= i <= self.entries.len(),
                out@.map_values(|s: String| s@) == commands_in(
                    self.bindings().take(i as int),
                    panel_id,
                ),
            decreases self.entries.len() - i,
        {
            let ghost before = out@;
            let ghost part = self.bindings().take(i + 1);
            assert(part.drop_last() =~= self.bindings().take(i as int));
            if self.entries[i].owner == panel_id {
                out.push(self.entries[i].command.clone());
                assert(out@.map_values(|s: String| s@) =~= before.map_values(
                    |s: String| s@,
                ).push(part.last().command));
                assert(commands_in(part, panel_id) =~= commands_in(
                    part.drop_last(),
                    panel_id,
                ).push(part.last().command));
            }
            i = i + 1;
        }
        assert(self.bindings().take(i as int) =~= self.bindings());
        out
    }

    /// Drops every command of a panel.
    pub fn unregister_panel(&mut self, panel_id: PanelId)
        requires
            old(self).wf(),
        ensures
            final(self).wf(),
            final(self).bindings() == seqs::kept(old(self).bindings(), not_owned_by(panel_id)),
    {
        let ghost all = self.bindings();
        let mut rest: Vec<Entry> = Vec::new();
        let mut i: usize = 0;
        assert(rest@.map_values(|e: Entry| e.binding()) =~= seqs::kept(
            all.take(0),
            not_owned_by(panel_id),
        ));
        while i < self.entries.len()
            invariant
                0 <= i <= self.entries.len(),
                all == self.bindings(),
                rest@.map_values(|e: Entry| e.binding()) == seqs::kept(
                    all.take(i as int),
                    not_owned_by(panel_id),
                ),
            decreases self.entries.len() - i,
        {
            let ghost before = rest@;
            assert(all.take(i + 1).drop_last() =~= all.take(i as int));
            let owner = self.entries[i].owner;
            if owner != panel_id {
                rest.push(Entry { command: self.entries[i].command.clone(), owner });
                assert(rest@.map_values(|e: Entry| e.binding()) =~= before.map_values(
                    |e: Entry| e.binding(),
                ).push(all[i as int]));
            }
            i = i + 1;
        }
        assert(all.take(i as int) =~= all);
        self.entries = rest;
        proof {
            lemma_kept_well_bound(all, not_owned_by(panel_id));
        }
    }

    /// Number of registered commands.
    #[must_use]
    pub fn len(&self) -> (n: usize)
        ensures
            n == self.bindings().len(),
    {
        self.entries.len()
    }

    /// Whether no command is registered.
    #[must_use]
    pub fn is_empty(&self) -> (empty: bool)
        ensures
            empty == (self.bindings().len() == 0),
    {
        self.entries.len() == 0
    }
}

impl Default for CommandRegistry {
    fn default() -> (r: Self)
        ensures
            r.wf(),
            r.bindings() == Seq::<Binding>::empty(),
    {
        Self::new()
    }
}

impl Clone for CommandRegistry {
    fn clone(&self) -> (r: Self)
        ensures
            r.bindings() == self.bindings(),
    {
        let mut entries: Vec<Entry> = Vec::new();
        while entries.len() < self.entries.len()
            invariant
                entries@.len() <= self.entries@.len(),
                forall|i: int| 0 <= i < entries@.len() ==> entries@[i] == self.entries@[i],
            decreases self.entries.len() - entries.len(),
        {
            let entry = &self.entries[entries.len()];
            entries.push(Entry { command: entry.command.clone(), owner: entry.owner });
        }
        assert(entries@ =~= self.entries@);
        Self { entries }
    }
}

proof fn lemma_kept_well_bound(all: Seq<Binding>, p: spec_fn(Binding) -> bool)
    requires
        well_bound(all),
    ensures
        well_bound(seqs::kept(all, p)),
    decreases all.len(),
{
    if all.len() > 0 {
        let front = all.drop_last();
        assert forall|q: PanelId|
            #[trigger]
            seqs::count_where(front, owned_by(q)) <= MAX_COMMANDS_PER_PANEL_TYPE by {
            assert(seqs::count_where(all, owned_by(q)) <= MAX_COMMANDS_PER_PANEL_TYPE);
        }
        lemma_kept_well_bound(front, p);
        seqs::kept_holds(front, p);
        let rest = seqs::kept(all, p);
        assert forall|q: PanelId|
            #[trigger]
            seqs::count_where(rest, owned_by(q)) <= MAX_COMMANDS_PER_PANEL_TYPE by {
            lemma_kept_count(all, p, owned_by(q));
            assert(seqs::count_where(all, owned_by(q)) <= MAX_COMMANDS_PER_PANEL_TYPE);
        }
        if p(all.last()) {
            assert forall|i: int, j: int| 0 <= i < j < rest.len() implies (
            #[trigger] rest[i]).command != (#[trigger] rest[j]).command by {
                let kept_front = seqs::kept(front, p);
                if j == kept_front.len() {
                    assert(rest[i] == kept_front[i]);
                    assert(front.contains(kept_front[i]));
                    let m = choose|m: int| 0 <= m < front.len() && front[m] == kept_front[i];
                    assert(all[m].command != all[all.len() - 1].command);
                } else {
                    assert(kept_front[i].command != kept_front[j].command);
                }
            }
        }
    }
}

proof fn lemma_kept_count(
    all: Seq<Binding>,
    p: spec_fn(Binding) -> bool,
    q: spec_fn(Binding) -> bool,
)
    ensures
        seqs::count_where(seqs::kept(all, p), q) <= seqs::count_where(all, q),
    decreases all.len(),
{
    if all.len() > 0 {
        lemma_kept_count(all.drop_last(), p, q);
        if p(all.last()) {
            seqs::count_where_push(seqs::kept(all.drop_last(), p), q, all.last());
        }
    }
}

/// A command that was registered is owned by the panel that registered it,
/// and every other command keeps its owner.
pub proof fn registering_binds_one_command(bindings: Seq<Binding>, added: Binding, c: Seq<char>)
    requires
        owner_in(bindings, added.command) is None,
    ensures
        owner_in(bindings.push(added), added.command) == Some(added.owner),
        c != added.command ==> owner_in(bindings.push(added), c) == owner_in(bindings, c),
{
    seqs::find_where_push(bindings, added, binds(added.command));
    seqs::find_where_push(bindings, added, binds(c));
}

/// Unregistering a panel leaves none of its commands bound, and every command
/// of another panel keeps its owner.
pub proof fn unregistering_frees_the_commands(
    bindings: Seq<Binding>,
    panel: PanelId,
    c: Seq<char>,
)
    requires
        well_bound(bindings),
    ensures
        owner_in(seqs::kept(bindings, not_owned_by(panel)), c) == (if owner_in(bindings, c) == Some(
            panel,
        ) {
            None
        } else {
            owner_in(bindings, c)
        }),
        commands_in(seqs::kept(bindings, not_owned_by(panel)), panel) == Seq::<Seq<char>>::empty(),
{
    let p = not_owned_by(panel);
    let rest = seqs::kept(bindings, p);
    seqs::kept_holds(bindings, p);
    seqs::first_where_is_first(bindings, binds(c));
    seqs::first_where_is_first(rest, binds(c));
    let k = seqs::first_where(bindings, binds(c));
    let m = seqs::first_where(rest, binds(c));
    if m < rest.len() {
        assert(bindings.contains(rest[m]));
        let i = choose|i: int| 0 <= i < bindings.len() && bindings[i] == rest[m];
        assert(binds(c)(bindings[i]));
        assert(k <= i);
        if k < i {
            assert(bindings[k].command != bindings[i].command);
        }
    } else if k < bindings.len() && bindings[k].owner != panel {
        assert(bindings.contains(bindings[k]));
        assert(rest.contains(bindings[k]));
        let i = choose|i: int| 0 <= i < rest.len() && rest[i] == bindings[k];
        assert(!binds(c)(rest[i]));
    }
    seqs::count_where_zero(rest, owned_by(panel));
    seqs::kept_holds(rest, owned_by(panel));
    assert forall|i: int| 0 <= i < rest.len() implies !owned_by(panel)(#[trigger] rest[i]) by {
        assert(p(rest[i]));
    }
    assert(commands_in(rest, panel) =~= Seq::<Seq<char>>::empty());
}

/// A command name starts with a lower-case letter and goes on with lower-case
/// letters, digits, `_`, `.` and `-`; a segment likewise, without the dot and of
/// at most 32 characters.
pub proof fn command_parts_are_plain(s: Seq<char>)
    requires
        s.len() > 0,
    ensures
        is_command_name(s) <==> 'a' <= s[0] <= 'z' && forall|i: int|
            0 <= i < s.len() ==> ('a' <= #[trigger] s[i] <= 'z' || '0' <= s[i] <= '9' || s[i] == '_'
                || s[i] == '.' || s[i] == '-'),
        provider::is_segment(s) <==> s.len() <= 32 && 'a' <= s[0] <= 'z' && forall|i: int|
            0 <= i < s.len() ==> ('a' <= #[trigger] s[i] <= 'z' || '0' <= s[i] <= '9' || s[i] == '_'
                || s[i] == '-'),
{
}

/// The owner of a command is that of its binding, the first one when there were
/// more, and the commands of a panel are those that it owns, in order.
pub proof fn owners_are_those_of_the_binding(
    bindings: Seq<Binding>,
    command: Seq<char>,
    panel: PanelId,
    k: int,
)
    ensures
        0 <= k < bindings.len() && bindings[k].command == command && (forall|j: int|
            0 <= j < k ==> (#[trigger] bindings[j]).command != command) ==> owner_in(
            bindings,
            command,
        ) == Some(bindings[k].owner),
        (forall|j: int| 0 <= j < bindings.len() ==> (#[trigger] bindings[j]).command != command)
            ==> owner_in(bindings, command) is None,
        commands_in(bindings, panel) == bindings.filter(|b: Binding| b.owner == panel).map_values(
            |b: Binding| b.command,
        ),
{
    let p = binds(command);
    seqs::first_where_is_first(bindings, p);
    let q = seqs::first_where(bindings, p);
    if 0 <= k < bindings.len() && bindings[k].command == command && (forall|j: int|
        0 <= j < k ==> (#[trigger] bindings[j]).command != command) {
        assert(p(bindings[k]));
        assert forall|j: int| 0 <= j < k implies !p(#[trigger] bindings[j]) by {}
        seqs::first_where_unique(bindings, p, k);
    }
    if q < bindings.len() {
        assert(bindings[q].command == command);
    }
    seqs::keeping_filters(bindings, owned_by(panel));
    assert(owned_by(panel) =~= (|b: Binding| b.owner == panel));
}

} // verus!
