//! Restart manifests: which panels existed, with which title and in which
//! workspace, and in which order they come back.

use crate::panel::PanelId;
use crate::panel_identity::MAX_IDENTITY_TITLE_LEN;
use crate::seqs;
use crate::text;
use vstd::prelude::*;
use vstd::string::*;

verus! {

/// Version of the manifest format.
pub const PERSIST_MANIFEST_VERSION: u32 = 1;

/// Most panels of a manifest.
pub const MAX_PERSIST_PANELS: usize = 256;

/// Longest manifest line in characters.
pub const MAX_MANIFEST_LINE_LEN: usize = 512;

/// What happens to panel identity on restart.
#[derive(Debug, Clone, Copy, PartialEq, Eq, Structural, Hash)]
pub enum PersistencePolicy {
    /// Fresh ids on every restart.
    Ephemeral,
    /// The recorded ids are used again.
    StableIdentity,
}

impl PersistencePolicy {
    /// The name of the policy.
    pub open spec fn spelled(self) -> Seq<char> {
        match self {
            PersistencePolicy::Ephemeral => "ephemeral"@,
            PersistencePolicy::StableIdentity => "stable-identity"@,
        }
    }

    /// Canonical lowercase name.
    #[must_use]
    pub fn as_str(self) -> (s: &'static str)
        ensures
            s@ == self.spelled(),
    {
        match self {
            Self::Ephemeral => "ephemeral",
            Self::StableIdentity => "stable-identity",
        }
    }

    /// Spells the policy for messages.
    #[must_use]
    pub fn text(self) -> (out: String)
        ensures
            out@ == self.spelled(),
    {
        self.as_str().to_owned()
    }
}

/// Failure to read or build a manifest.
#[derive(Debug, Clone, Copy, PartialEq, Eq, Structural)]
pub enum ManifestError {
    /// A record has another format version.
    UnsupportedVersion { found: u32, supported: u32 },
    /// A record is malformed.
    Malformed { line: usize },
    /// A line is too long.
    LineTooLong { line: usize },
    /// There are too many records.
    TooManyPanels { found: usize, cap: usize },
    /// A title is too long.
    TitleTooLong { line: usize },
}

impl ManifestError {
    /// The message of the error.
    pub open spec fn spelled(self) -> Seq<char> {
        match self {
            ManifestError::UnsupportedVersion { found, supported } =>
                "unsupported manifest version "@ + text::decimal(found as nat) + ", supported "@
                + text::decimal(supported as nat),
            ManifestError::Malformed { line } => "malformed manifest record at line "@
                + text::decimal(line as nat),
            ManifestError::LineTooLong { line } => "manifest line "@ + text::decimal(line as nat)
                + " exceeds "@ + text::decimal(MAX_MANIFEST_LINE_LEN as nat) + " chars"@,
            ManifestError::TooManyPanels { found, cap } => "too many persisted panels: "@
                + text::decimal(found as nat) + ", cap "@ + text::decimal(cap as nat),
            ManifestError::TitleTooLong { line } => "manifest title too long at line "@
                + text::decimal(line as nat),
        }
    }

    /// Spells the error.
    #[must_use]
    pub fn text(&self) -> (out: String)
        ensures
            out@ == self.spelled(),
    {
        match self {
            Self::UnsupportedVersion { found, supported } => text::ending_numbers(
                "unsupported manifest version ",
                *found as u64,
                ", supported ",
                *supported as u64,
            ),
            Self::Malformed { line } => text::ending_number(
                "malformed manifest record at line ",
                *line as u64,
            ),
            Self::LineTooLong { line } => text::tagged_numbers(
                "manifest line ",
                *line as u64,
                " exceeds ",
                MAX_MANIFEST_LINE_LEN as u64,
                " chars",
            ),
            Self::TooManyPanels { found, cap } => text::ending_numbers(
                "too many persisted panels: ",
                *found as u64,
                ", cap ",
                *cap as u64,
            ),
            Self::TitleTooLong { line } => text::ending_number(
                "manifest title too long at line ",
                *line as u64,
            ),
        }
    }
}

/// What a restart record says.
pub ghost struct Persisted {
    /// The recorded identity.
    pub id: PanelId,
    /// The workspace of the panel.
    pub workspace: u32,
    /// The display title.
    pub title: Seq<char>,
}

/// Restart record of one panel.
#[derive(Debug, PartialEq, Eq)]
pub struct PersistedPanel {
    /// The recorded identity.
    pub id: PanelId,
    /// The workspace of the panel.
    pub workspace: u32,
    /// The display title.
    pub title: String,
}

impl View for PersistedPanel {
    type V = Persisted;

    open spec fn view(&self) -> Persisted {
        Persisted { id: self.id, workspace: self.workspace, title: self.title@ }
    }
}

impl PersistedPanel {
    /// Builds a record; an overlong title is refused.
    pub fn new(id: PanelId, workspace: u32, title: &str) -> (r: Result<Self, ManifestError>)
        ensures
            if title@.len() > MAX_IDENTITY_TITLE_LEN {
                r == Err::<PersistedPanel, ManifestError>(ManifestError::TitleTooLong { line: 0 })
            } else {
                r matches Ok(p) && p@ == (Persisted { id, workspace, title: title@ })
            },
    {
        if text::chars_of(title).len() > MAX_IDENTITY_TITLE_LEN {
            return Err(ManifestError::TitleTooLong { line: 0 });
        }
        Ok(Self { id, workspace, title: title.to_owned() })
    }
}

impl Clone for PersistedPanel {
    fn clone(&self) -> (p: Self)
        ensures
            p@ == self@,
    {
        Self { id: self.id, workspace: self.workspace, title: self.title.clone() }
    }
}

/// The records of a list of panels.
pub open spec fn records_of(panels: Seq<PersistedPanel>) -> Seq<Persisted> {
    panels.map_values(|p: PersistedPanel| p@)
}

/// Restart record of a whole session.
#[derive(Debug, PartialEq, Eq)]
pub struct RestartManifest {
    panels: Vec<PersistedPanel>,
}

impl View for RestartManifest {
    type V = Seq<Persisted>;

    closed spec fn view(&self) -> Seq<Persisted> {
        records_of(self.panels@)
    }
}

impl RestartManifest {
    /// The bound on the number of records.
    pub open spec fn wf(self) -> bool {
        self@.len() <= MAX_PERSIST_PANELS
    }

    /// Creates an empty manifest.
    #[must_use]
    pub fn new() -> (m: Self)
        ensures
            m.wf(),
            m@ == Seq::<Persisted>::empty(),
    {
        let m = Self { panels: Vec::new() };
        assert(m@ =~= Seq::<Persisted>::empty());
        m
    }

    /// Adds a record; a full manifest refuses it and stays as it is.
    pub fn push(&mut self, panel: PersistedPanel) -> (r: Result<(), ManifestError>)
        requires
            old(self).wf(),
        ensures
            final(self).wf(),
            if old(self)@.len() >= MAX_PERSIST_PANELS {
                r == Err::<(), ManifestError>(
                    ManifestError::TooManyPanels {
                        found: (old(self)@.len() + 1) as usize,
                        cap: MAX_PERSIST_PANELS,
                    },
                ) && final(self)@ == old(self)@
            } else {
                r is Ok && final(self)@ == old(self)@.push(panel@)
            },
    {
        if self.panels.len() >= MAX_PERSIST_PANELS {
            return Err(
                ManifestError::TooManyPanels {
                    found: self.panels.len() + 1,
                    cap: MAX_PERSIST_PANELS,
                },
            );
        }
        self.panels.push(panel);
        assert(self@ =~= old(self)@.push(panel@));
        Ok(())
    }

    /// The records in order of insertion.
    #[must_use]
    pub fn panels(&self) -> (s: &[PersistedPanel])
        ensures
            records_of(s@) == self@,
    {
        self.panels.as_slice()
    }

    /// Whether nothing is recorded.
    #[must_use]
    pub fn is_empty(&self) -> (empty: bool)
        ensures
            empty == (self@.len() == 0),
    {
        self.panels.len() == 0
    }

    /// Number of records.
    #[must_use]
    pub fn len(&self) -> (n: usize)
        ensures
            n == self@.len(),
    {
        self.panels.len()
    }
}

impl Default for RestartManifest {
    fn default() -> (m: Self)
        ensures
            m.wf(),
            m@ == Seq::<Persisted>::empty(),
    {
        Self::new()
    }
}

impl Clone for RestartManifest {
    fn clone(&self) -> (m: Self)
        ensures
            m@ == self@,
    {
        Self { panels: copied(&self.panels) }
    }
}

fn copied(panels: &Vec<PersistedPanel>) -> (out: Vec<PersistedPanel>)
    ensures
        records_of(out@) == records_of(panels@),
{
    let mut out: Vec<PersistedPanel> = Vec::new();
    let mut i: usize = 0;
    while i < panels.len()
        invariant
            0 <= i <= panels.len(),
            out@.len() == i,
            forall|j: int| 0 <= j < i ==> (#[trigger] out@[j])@ == panels@[j]@,
        decreases panels.len() - i,
    {
        out.push(panels[i].clone());
        i = i + 1;
    }
    assert(records_of(out@) =~= records_of(panels@));
    out
}

/// The line of a record: `v=<n>;id=<n>;ws=<n>;title=<text>`.
pub open spec fn line_of(p: Persisted) -> Seq<char> {
    "v="@ + text::decimal(PERSIST_MANIFEST_VERSION as nat) + ";id="@ + text::decimal(p.id.0 as nat)
        + ";ws="@ + text::decimal(p.workspace as nat) + ";title="@ + p.title
}

/// The document of a list of records: their lines with line feeds between.
pub open spec fn document_of(records: Seq<Persisted>) -> Seq<char> {
    text::joined_lines(records.map_values(|p: Persisted| line_of(p)))
}

fn encode_record(p: &PersistedPanel) -> (line: String)
    ensures
        line@ == line_of(p@),
{
    let mut line = text::tagged_numbers(
        "v=",
        PERSIST_MANIFEST_VERSION as u64,
        ";id=",
        p.id.0,
        ";ws=",
    );
    text::push_decimal(&mut line, p.workspace as u64);
    line.append(";title=");
    line.append(p.title.as_str());
    line
}

/// Encodes a manifest as one line per record.
#[must_use]
pub fn encode_manifest(manifest: &RestartManifest) -> (doc: String)
    ensures
        doc@ == document_of(manifest@),
{
    let mut doc = String::new();
    let mut i: usize = manifest.panels.len();
    let ghost lines = manifest@.map_values(|p: Persisted| line_of(p));
    assert(lines.skip(i as int) =~= Seq::<Seq<char>>::empty());
    while i > 0
        invariant
            0 <= i <= manifest.panels.len(),
            lines == manifest@.map_values(|p: Persisted| line_of(p)),
            doc@ == text::joined_lines(lines.skip(i as int)),
        decreases i,
    {
        let ghost tail = lines.skip(i as int);
        let line = encode_record(&manifest.panels[i - 1]);
        assert(line@ == lines[i - 1]);
        assert(lines.skip(i - 1).drop_first() =~= tail);
        assert(lines.skip(i - 1)[0] == line@);
        if i == manifest.panels.len() {
            assert(lines.skip(i - 1).len() == 1);
            doc = line;
        } else {
            doc = text::joined3(line.as_str(), "\n", doc.as_str());
            proof {
                reveal_strlit("\n");
                assert("\n"@ =~= seq!['\n']);
            }
        }
        i = i - 1;
    }
    assert(lines.skip(0) =~= lines);
    doc
}

/// What the fields of a line have said so far.
pub ghost struct ManifestDraft {
    /// The version.
    pub version: Option<u32>,
    /// The identity.
    pub id: Option<u64>,
    /// The workspace.
    pub workspace: Option<u32>,
    /// The title.
    pub title: Option<Seq<char>>,
}

/// The draft before the first field.
pub open spec fn empty_draft() -> ManifestDraft {
    ManifestDraft { version: None, id: None, workspace: None, title: None }
}

/// The draft after one more field, `None` when the field is malformed. A field
/// is a key, an equals sign and a value; unknown keys are ignored. The title is
/// the last field: one behind it would be a part of a title with a separator,
/// and is malformed.
pub open spec fn with_field(d: ManifestDraft, field: Seq<char>) -> Option<ManifestDraft> {
    let k = text::index_of(field, '=');
    let key = field.take(k);
    let value = field.skip(k + 1);
    if k >= field.len() || d.title is Some {
        None
    } else if key == "v"@ {
        match text::number_in(value, u32::MAX as nat) {
            Some(n) => Some(ManifestDraft { version: Some(n as u32), ..d }),
            None => None,
        }
    } else if key == "id"@ {
        match text::number_in(value, u64::MAX as nat) {
            Some(n) => Some(ManifestDraft { id: Some(n as u64), ..d }),
            None => None,
        }
    } else if key == "ws"@ {
        match text::number_in(value, u32::MAX as nat) {
            Some(n) => Some(ManifestDraft { workspace: Some(n as u32), ..d }),
            None => None,
        }
    } else if key == "title"@ {
        Some(ManifestDraft { title: Some(value), ..d })
    } else {
        Some(d)
    }
}

/// The draft after all fields, `None` when one of them is malformed.
pub open spec fn drafted(fields: Seq<Seq<char>>) -> Option<ManifestDraft>
    decreases fields.len(),
{
    if fields.len() == 0 {
        Some(empty_draft())
    } else {
        match drafted(fields.drop_last()) {
            Some(d) => with_field(d, fields.last()),
            None => None,
        }
    }
}

/// What a line says, or why it is refused.
pub open spec fn line_read(line: Seq<char>, no: usize) -> Result<Persisted, ManifestError> {
    if line.len() > MAX_MANIFEST_LINE_LEN {
        Err(ManifestError::LineTooLong { line: no })
    } else {
        match drafted(text::pieces(line, ';')) {
            None => Err(ManifestError::Malformed { line: no }),
            Some(d) => match d.version {
                None => Err(ManifestError::Malformed { line: no }),
                Some(v) => if v != PERSIST_MANIFEST_VERSION {
                    Err(
                        ManifestError::UnsupportedVersion {
                            found: v,
                            supported: PERSIST_MANIFEST_VERSION,
                        },
                    )
                } else {
                    match (d.id, d.workspace, d.title) {
                        (Some(id), Some(workspace), Some(title)) => if title.len()
                            > MAX_IDENTITY_TITLE_LEN {
                            Err(ManifestError::TitleTooLong { line: no })
                        } else {
                            Ok(Persisted { id: PanelId(id), workspace, title })
                        },
                        _ => Err(ManifestError::Malformed { line: no }),
                    }
                },
            },
        }
    }
}

/// The records of the first `n` lines, or the first failure among them.
pub open spec fn lines_read(lines: Seq<Seq<char>>, n: nat) -> Result<Seq<Persisted>, ManifestError>
    decreases n,
{
    if n == 0 {
        Ok(Seq::empty())
    } else {
        match lines_read(lines, (n - 1) as nat) {
            Err(e) => Err(e),
            Ok(records) => match line_read(lines[n - 1], n as usize) {
                Err(e) => Err(e),
                Ok(p) => if records.len() >= MAX_PERSIST_PANELS {
                    Err(
                        ManifestError::TooManyPanels {
                            found: (records.len() + 1) as usize,
                            cap: MAX_PERSIST_PANELS,
                        },
                    )
                } else {
                    Ok(records.push(p))
                },
            },
        }
    }
}

/// The records of a document, or its first failure.
pub open spec fn document_read(doc: Seq<char>) -> Result<Seq<Persisted>, ManifestError> {
    lines_read(text::lines_of(doc), text::lines_of(doc).len())
}

proof fn lemma_first_failure(lines: Seq<Seq<char>>, k: nat, n: nat)
    requires
        k <= n,
        lines_read(lines, k) is Err,
    ensures
        lines_read(lines, n) == lines_read(lines, k),
    decreases n,
{
    if k < n {
        lemma_first_failure(lines, k, (n - 1) as nat);
    }
}

proof fn lemma_drafted_fails(fields: Seq<Seq<char>>, k: int)
    requires
        0 <= k <= fields.len(),
        drafted(fields.take(k)) is None,
    ensures
        drafted(fields) is None,
    decreases fields.len(),
{
    if k == fields.len() {
        assert(fields.take(k) =~= fields);
    } else {
        assert(fields.drop_last().take(k) =~= fields.take(k));
        lemma_drafted_fails(fields.drop_last(), k);
    }
}

struct Draft {
    version: Option<u32>,
    id: Option<u64>,
    workspace: Option<u32>,
    title: Option<Vec<char>>,
}

impl View for Draft {
    type V = ManifestDraft;

    closed spec fn view(&self) -> ManifestDraft {
        ManifestDraft {
            version: self.version,
            id: self.id,
            workspace: self.workspace,
            title: match self.title {
                Some(t) => Some(t@),
                None => None,
            },
        }
    }
}

fn is_text(chars: &Vec<char>, s: &str) -> (same: bool)
    ensures
        same == (chars@ == s@),
{
    text::same_text(text::string_of(chars.as_slice()).as_str(), s)
}

fn add_field(d: Draft, field: &Vec<char>) -> (r: Option<Draft>)
    ensures
        match r {
            Some(n) => with_field(d@, field@) == Some(n@),
            None => with_field(d@, field@) is None,
        },
{
    let k: usize = text::find_char(field.as_slice(), '=');
    if k >= field.len() || d.title.is_some() {
        return None;
    }
    let key = text::part_of(field.as_slice(), 0, k);
    let value = text::part_of(field.as_slice(), k + 1, field.len());
    assert(key@ =~= field@.take(k as int));
    assert(value@ =~= field@.skip(k + 1));
    let mut next = d;
    if is_text(&key, "v") {
        match text::parse_number(value.as_slice(), u32::MAX as u64) {
            Some(n) => {
                next.version = Some(n as u32);
            },
            None => return None,
        }
    } else if is_text(&key, "id") {
        match text::parse_number(value.as_slice(), u64::MAX) {
            Some(n) => {
                next.id = Some(n);
            },
            None => return None,
        }
    } else if is_text(&key, "ws") {
        match text::parse_number(value.as_slice(), u32::MAX as u64) {
            Some(n) => {
                next.workspace = Some(n as u32);
            },
            None => return None,
        }
    } else if is_text(&key, "title") {
        next.title = Some(value);
    }
    Some(next)
}

fn decode_line(line: &Vec<char>, no: usize) -> (r: Result<PersistedPanel, ManifestError>)
    ensures
        match r {
            Ok(p) => line_read(line@, no) == Ok::<Persisted, ManifestError>(p@),
            Err(e) => line_read(line@, no) == Err::<Persisted, ManifestError>(e),
        },
{
    if line.len() > MAX_MANIFEST_LINE_LEN {
        return Err(ManifestError::LineTooLong { line: no });
    }
    let fields = text::split_at_each(line.as_slice(), ';');
    let ghost all = text::texts(fields@);
    let mut draft = Draft { version: None, id: None, workspace: None, title: None };
    let mut i: usize = 0;
    while i < fields.len()
        invariant
            0 <= i <= fields.len(),
            all == text::texts(fields@),
            all == text::pieces(line@, ';'),
            line@.len() <= MAX_MANIFEST_LINE_LEN,
            drafted(all.take(i as int)) == Some(draft@),
        decreases fields.len() - i,
    {
        assert(all.take(i + 1).drop_last() =~= all.take(i as int));
        assert(all.take(i + 1).last() == fields@[i as int]@);
        match add_field(draft, &fields[i]) {
            Some(d) => {
                draft = d;
            },
            None => {
                proof {
                    lemma_drafted_fails(all, i + 1);
                }
                return Err(ManifestError::Malformed { line: no });
            },
        }
        i = i + 1;
    }
    assert(all.take(i as int) =~= all);
    match draft.version {
        None => {
            return Err(ManifestError::Malformed { line: no });
        },
        Some(found) => {
            if found != PERSIST_MANIFEST_VERSION {
                return Err(
                    ManifestError::UnsupportedVersion {
                        found,
                        supported: PERSIST_MANIFEST_VERSION,
                    },
                );
            }
        },
    }
    match (draft.id, draft.workspace, draft.title) {
        (Some(id), Some(workspace), Some(title)) => {
            if title.len() > MAX_IDENTITY_TITLE_LEN {
                return Err(ManifestError::TitleTooLong { line: no });
            }
            Ok(
                PersistedPanel {
                    id: PanelId::new(id),
                    workspace,
                    title: text::string_of(title.as_slice()),
                },
            )
        },
        _ => Err(ManifestError::Malformed { line: no }),
    }
}

/// Decodes a manifest document; the first defect rejects the whole document. A
/// title that holds a separator is a defect, never cut.
pub fn decode_manifest(doc: &str) -> (r: Result<RestartManifest, ManifestError>)
    ensures
        match r {
            Ok(m) => m.wf() && document_read(doc@) == Ok::<Seq<Persisted>, ManifestError>(m@),
            Err(e) => document_read(doc@) == Err::<Seq<Persisted>, ManifestError>(e),
        },
{
    let chars = text::chars_of(doc);
    let lines = text::split_lines(chars.as_slice());
    let ghost all = text::texts(lines@);
    let mut out = RestartManifest::new();
    let mut i: usize = 0;
    while i < lines.len()
        invariant
            0 <= i <= lines.len(),
            all == text::texts(lines@),
            all == text::lines_of(doc@),
            out.wf(),
            lines_read(all, i as nat) == Ok::<Seq<Persisted>, ManifestError>(out@),
        decreases lines.len() - i,
    {
        assert(all[i as int] == lines@[i as int]@);
        let no: usize = i + 1;
        let step = match decode_line(&lines[i], no) {
            Ok(p) => out.push(p),
            Err(e) => Err(e),
        };
        if let Err(e) = step {
            proof {
                lemma_first_failure(all, (i + 1) as nat, all.len());
            }
            return Err(e);
        }
        i = i + 1;
    }
    Ok(out)
}

/// A record whose line can be read back: its title holds no separator and
/// keeps its bound.
pub open spec fn is_plain(p: Persisted) -> bool {
    &&& p.title.len() <= MAX_IDENTITY_TITLE_LEN
    &&& !p.title.contains(';')
    &&& !p.title.contains('\n')
}

proof fn lemma_pieces_prepend(a: Seq<char>, rest: Seq<char>, sep: char)
    requires
        !a.contains(sep),
    ensures
        text::pieces(a + seq![sep] + rest, sep) == seq![a] + text::pieces(rest, sep),
{
    let s = a + seq![sep] + rest;
    assert forall|j: int| 0 <= j < a.len() implies s[j] != sep by {
        assert(s[j] == a[j]);
        assert(a.contains(a[j]));
    }
    text::index_of_unique(s, sep, a.len() as int);
    assert(s.take(a.len() as int) =~= a);
    assert(s.skip(a.len() as int + 1) =~= rest);
}

proof fn lemma_field(key: Seq<char>, value: Seq<char>)
    requires
        !key.contains('='),
    ensures
        ({
            let field = key + seq!['='] + value;
            let k = text::index_of(field, '=');
            &&& k < field.len()
            &&& field.take(k) == key
            &&& field.skip(k + 1) == value
        }),
{
    let field = key + seq!['='] + value;
    assert forall|j: int| 0 <= j < key.len() implies field[j] != '=' by {
        assert(field[j] == key[j]);
        assert(key.contains(key[j]));
    }
    text::index_of_unique(field, '=', key.len() as int);
    assert(field.take(key.len() as int) =~= key);
    assert(field.skip(key.len() as int + 1) =~= value);
}

proof fn lemma_number_plain(n: nat)
    ensures
        !text::decimal(n).contains(';'),
        !text::decimal(n).contains('='),
        !text::decimal(n).contains('\n'),
{
    text::lemma_decimal(n);
    let d = text::decimal(n);
    assert forall|c: char| d.contains(c) implies text::is_digit(c) by {
        let i = choose|i: int| 0 <= i < d.len() && d[i] == c;
        assert(text::is_digit(d[i]));
    }
}

/// Whether a field has a key that no record uses.
pub open spec fn is_ignored(field: Seq<char>) -> bool {
    let k = text::index_of(field, '=');
    let key = field.take(k);
    k < field.len() && key != "v"@ && key != "id"@ && key != "ws"@ && key != "title"@
}

proof fn lemma_pieces_append(s: Seq<char>, more: Seq<char>, sep: char)
    ensures
        text::pieces(s + seq![sep] + more, sep) == text::pieces(s, sep) + text::pieces(more, sep),
    decreases s.len(),
{
    text::index_of_is_first(s, sep);
    let k = text::index_of(s, sep);
    let whole = s + seq![sep] + more;
    if k >= s.len() {
        assert(!s.contains(sep));
        lemma_pieces_prepend(s, more, sep);
    } else {
        let head = s.take(k);
        let tail = s.skip(k + 1);
        assert(!head.contains(sep));
        assert(whole =~= head + seq![sep] + (tail + seq![sep] + more));
        assert(s =~= head + seq![sep] + tail);
        lemma_pieces_prepend(head, tail + seq![sep] + more, sep);
        lemma_pieces_prepend(head, tail, sep);
        lemma_pieces_append(tail, more, sep);
        assert(text::pieces(whole, sep) =~= text::pieces(s, sep) + text::pieces(more, sep));
    }
}

proof fn lemma_ignored(fields: Seq<Seq<char>>, more: Seq<Seq<char>>)
    requires
        drafted(fields) matches Some(d) ==> d.title is None,
        forall|i: int| 0 <= i < more.len() ==> is_ignored(#[trigger] more[i]),
    ensures
        drafted(fields + more) == drafted(fields),
    decreases more.len(),
{
    if more.len() == 0 {
        assert(fields + more =~= fields);
    } else {
        let front = more.drop_last();
        assert forall|i: int| 0 <= i < front.len() implies is_ignored(#[trigger] front[i]) by {
            assert(front[i] == more[i]);
        }
        lemma_ignored(fields, front);
        assert((fields + more).drop_last() =~= fields + front);
        assert((fields + more).last() == more[more.len() - 1]);
    }
}

proof fn lemma_same_draft(a: Seq<Seq<char>>, b: Seq<Seq<char>>, more: Seq<Seq<char>>)
    requires
        drafted(a) == drafted(b),
    ensures
        drafted(a + more) == drafted(b + more),
    decreases more.len(),
{
    if more.len() == 0 {
        assert(a + more =~= a);
        assert(b + more =~= b);
    } else {
        lemma_same_draft(a, b, more.drop_last());
        assert((a + more).drop_last() =~= a + more.drop_last());
        assert((b + more).drop_last() =~= b + more.drop_last());
    }
}

/// Whether a field has the key of the title.
pub open spec fn is_title(field: Seq<char>) -> bool {
    let k = text::index_of(field, '=');
    k < field.len() && field.take(k) == "title"@
}

proof fn lemma_no_title(fields: Seq<Seq<char>>)
    requires
        forall|i: int| 0 <= i < fields.len() ==> !is_title(#[trigger] fields[i]),
    ensures
        drafted(fields) matches Some(d) ==> d.title is None,
    decreases fields.len(),
{
    if fields.len() > 0 {
        let front = fields.drop_last();
        assert forall|i: int| 0 <= i < front.len() implies !is_title(#[trigger] front[i]) by {
            assert(front[i] == fields[i]);
        }
        lemma_no_title(front);
        assert(!is_title(fields[fields.len() - 1]));
    }
}

/// Unknown fields before the title leave the reading of a line as it was, as
/// long as the line stays within its bound.
pub proof fn unknown_fields_change_nothing(
    front: Seq<char>,
    more: Seq<char>,
    back: Seq<char>,
    no: usize,
)
    requires
        front.len() + 1 + more.len() + 1 + back.len() <= MAX_MANIFEST_LINE_LEN,
        forall|i: int|
            0 <= i < text::pieces(front, ';').len() ==> !is_title(
                #[trigger] text::pieces(front, ';')[i],
            ),
        forall|i: int|
            0 <= i < text::pieces(more, ';').len() ==> is_ignored(
                #[trigger] text::pieces(more, ';')[i],
            ),
    ensures
        line_read(front + seq![';'] + more + seq![';'] + back, no) == line_read(
            front + seq![';'] + back,
            no,
        ),
        line_read(more + seq![';'] + back, no) == line_read(back, no),
{
    let f = text::pieces(front, ';');
    let m = text::pieces(more, ';');
    let b = text::pieces(back, ';');
    let none = Seq::<Seq<char>>::empty();
    lemma_pieces_append(front, more, ';');
    lemma_pieces_append(front + seq![';'] + more, back, ';');
    lemma_pieces_append(front, back, ';');
    lemma_pieces_append(more, back, ';');
    lemma_no_title(f);
    lemma_ignored(f, m);
    lemma_ignored(none, m);
    lemma_same_draft(f + m, f, b);
    lemma_same_draft(none + m, none, b);
    assert(none + m =~= m);
    assert(none + b =~= b);
}

proof fn lemma_head(p: Persisted) -> (head: Seq<Seq<char>>)
    ensures
        text::pieces(line_of(p), ';') == head + text::pieces("title="@ + p.title, ';'),
        drafted(head) == Some(
            ManifestDraft {
                version: Some(PERSIST_MANIFEST_VERSION),
                id: Some(p.id.0),
                workspace: Some(p.workspace),
                title: None,
            },
        ),
        p.title.len() <= MAX_IDENTITY_TITLE_LEN ==> line_of(p).len() <= MAX_MANIFEST_LINE_LEN,
        p.title.contains('\n') == line_of(p).contains('\n'),
{
    reveal_strlit("v=");
    reveal_strlit(";id=");
    reveal_strlit(";ws=");
    reveal_strlit(";title=");
    reveal_strlit("title=");
    reveal_strlit("v");
    reveal_strlit("id");
    reveal_strlit("ws");
    reveal_strlit("title");
    let v = text::decimal(PERSIST_MANIFEST_VERSION as nat);
    let id = text::decimal(p.id.0 as nat);
    let ws = text::decimal(p.workspace as nat);
    lemma_number_plain(PERSIST_MANIFEST_VERSION as nat);
    lemma_number_plain(p.id.0 as nat);
    lemma_number_plain(p.workspace as nat);
    let eq = seq!['='];
    let sep = seq![';'];
    let f0 = "v"@ + eq + v;
    let f1 = "id"@ + eq + id;
    let f2 = "ws"@ + eq + ws;
    let f3 = "title="@ + p.title;
    let tail2 = f2 + sep + f3;
    let tail1 = f1 + sep + tail2;
    let line = line_of(p);
    assert(line =~= f0 + sep + tail1);
    lemma_field_plain("v"@, v);
    lemma_field_plain("id"@, id);
    lemma_field_plain("ws"@, ws);
    lemma_pieces_prepend(f0, tail1, ';');
    lemma_pieces_prepend(f1, tail2, ';');
    lemma_pieces_prepend(f2, f3, ';');
    let head = seq![f0, f1, f2];
    assert(text::pieces(line, ';') =~= head + text::pieces(f3, ';'));
    lemma_field("v"@, v);
    lemma_field("id"@, id);
    lemma_field("ws"@, ws);
    text::decimal_reads_back(PERSIST_MANIFEST_VERSION as nat, u32::MAX as nat);
    text::decimal_reads_back(p.id.0 as nat, u64::MAX as nat);
    text::decimal_reads_back(p.workspace as nat, u32::MAX as nat);
    assert("v"@.len() == 1 && "id"@.len() == 2 && "ws"@.len() == 2 && "title"@.len() == 5);
    assert("id"@[0] != "ws"@[0]);
    let d0 = ManifestDraft { version: Some(PERSIST_MANIFEST_VERSION), ..empty_draft() };
    let d1 = ManifestDraft { id: Some(p.id.0), ..d0 };
    let d2 = ManifestDraft { workspace: Some(p.workspace), ..d1 };
    assert(head.drop_last() =~= seq![f0, f1]);
    assert(seq![f0, f1].drop_last() =~= seq![f0]);
    assert(seq![f0].drop_last() =~= Seq::<Seq<char>>::empty());
    assert(drafted(Seq::<Seq<char>>::empty()) == Some(empty_draft()));
    assert(drafted(seq![f0]) == Some(d0));
    assert(drafted(seq![f0, f1]) == Some(d1));
    assert(drafted(head) == Some(d2));
    lemma_short(p.id.0, p.workspace);
    if line.contains('\n') {
        let i = choose|i: int| 0 <= i < line.len() && line[i] == '\n';
        lemma_no_feed(f0, tail1, i);
        let j = i - f0.len() - 1;
        lemma_no_feed(f1, tail2, j);
        let m = j - f1.len() - 1;
        lemma_no_feed(f2, f3, m);
        let q = m - f2.len() - 1;
        assert(f3[q] == '\n');
        assert(p.title[q - 6] == '\n');
    }
    if p.title.contains('\n') {
        let i = choose|i: int| 0 <= i < p.title.len() && p.title[i] == '\n';
        assert(line[line.len() - p.title.len() + i] == '\n');
    }
    head
}

proof fn lemma_title_field(d: ManifestDraft, title: Seq<char>)
    requires
        d.title is None,
    ensures
        with_field(d, "title="@ + title) == Some(ManifestDraft { title: Some(title), ..d }),
{
    reveal_strlit("title=");
    reveal_strlit("v");
    reveal_strlit("id");
    reveal_strlit("ws");
    reveal_strlit("title");
    assert("title="@ + title =~= "title"@ + seq!['='] + title);
    lemma_field("title"@, title);
    assert("v"@.len() == 1 && "id"@.len() == 2 && "ws"@.len() == 2 && "title"@.len() == 5);
}

/// The line of a plain record reads back as that record.
pub proof fn lines_read_back(p: Persisted, no: usize)
    requires
        is_plain(p),
    ensures
        line_read(line_of(p), no) == Ok::<Persisted, ManifestError>(p),
        !line_of(p).contains('\n'),
        line_of(p).len() > 0,
{
    let head = lemma_head(p);
    let field = "title="@ + p.title;
    reveal_strlit("title=");
    assert(!field.contains(';')) by {
        if field.contains(';') {
            let i = choose|i: int| 0 <= i < field.len() && field[i] == ';';
            assert(p.title[i - 6] == ';');
        }
    }
    text::index_of_is_first(field, ';');
    assert(text::pieces(field, ';') =~= seq![field]);
    lemma_title_field(drafted(head)->Some_0, p.title);
    let fields = text::pieces(line_of(p), ';');
    assert(fields.drop_last() =~= head);
    assert(fields.last() == field);
}

/// A line whose title holds a separator is refused; the title is never cut.
pub proof fn titles_with_separators_are_refused(p: Persisted, no: usize)
    requires
        p.title.len() <= MAX_IDENTITY_TITLE_LEN,
        p.title.contains(';'),
    ensures
        line_read(line_of(p), no) == Err::<Persisted, ManifestError>(
            ManifestError::Malformed { line: no },
        ),
{
    let head = lemma_head(p);
    let whole = "title="@ + p.title;
    reveal_strlit("title=");
    text::index_of_is_first(p.title, ';');
    let k = text::index_of(p.title, ';');
    let kept = p.title.take(k);
    let field = "title="@ + kept;
    let rest = p.title.skip(k + 1);
    assert(whole =~= field + seq![';'] + rest);
    assert(!field.contains(';')) by {
        if field.contains(';') {
            let i = choose|i: int| 0 <= i < field.len() && field[i] == ';';
            assert(p.title[i - 6] == ';');
        }
    }
    lemma_pieces_prepend(field, rest, ';');
    lemma_title_field(drafted(head)->Some_0, kept);
    let fields = text::pieces(line_of(p), ';');
    let more = text::pieces(rest, ';');
    assert(more.len() > 0);
    let n = head.len() as int;
    assert(fields.take(n + 1).drop_last() =~= head);
    assert(fields.take(n + 1).last() == field);
    assert(drafted(fields.take(n + 1)) is Some);
    assert(fields.take(n + 2).drop_last() =~= fields.take(n + 1));
    assert(drafted(fields.take(n + 2)) is None);
    lemma_drafted_fails(fields, n + 2);
}

proof fn lemma_no_feed(a: Seq<char>, rest: Seq<char>, i: int)
    requires
        !a.contains('\n'),
        0 <= i < (a + seq![';'] + rest).len(),
        (a + seq![';'] + rest)[i] == '\n',
    ensures
        i > a.len(),
        rest[i - a.len() - 1] == '\n',
{
    let s = a + seq![';'] + rest;
    if i < a.len() {
        assert(s[i] == a[i]);
        assert(a.contains(a[i]));
    }
}

proof fn lemma_field_plain(key: Seq<char>, value: Seq<char>)
    requires
        !key.contains(';'),
        !key.contains('\n'),
        !value.contains(';'),
        !value.contains('\n'),
    ensures
        !(key + seq!['='] + value).contains(';'),
        !(key + seq!['='] + value).contains('\n'),
{
    let field = key + seq!['='] + value;
    assert forall|c: char| field.contains(c) && c != '=' implies key.contains(c) || value.contains(
        c,
    ) by {
        let i = choose|i: int| 0 <= i < field.len() && field[i] == c;
        if i < key.len() {
            assert(key[i] == c);
        } else if i > key.len() {
            assert(value[i - key.len() - 1] == c);
        }
    }
}

proof fn lemma_short(id: u64, ws: u32)
    ensures
        text::decimal(PERSIST_MANIFEST_VERSION as nat).len() <= 20,
        text::decimal(id as nat).len() <= 20,
        text::decimal(ws as nat).len() <= 20,
{
    text::lemma_decimal_len_u64(PERSIST_MANIFEST_VERSION as u64);
    text::lemma_decimal_len_u64(id);
    text::lemma_decimal_len_u64(ws as u64);
}

/// Encoding a manifest and decoding it again gives its records back, when
/// every title is plain and only the last one may end with a carriage return.
pub proof fn manifests_round_trip(records: Seq<Persisted>)
    requires
        records.len() <= MAX_PERSIST_PANELS,
        forall|i: int| 0 <= i < records.len() ==> is_plain(#[trigger] records[i]),
        forall|i: int|
            0 <= i < records.len() - 1 ==> ((#[trigger] records[i]).title.len() == 0
                || records[i].title.last() != '\r'),
    ensures
        document_read(document_of(records)) == Ok::<Seq<Persisted>, ManifestError>(records),
{
    let lines = records.map_values(|p: Persisted| line_of(p));
    assert forall|i: int| 0 <= i < lines.len() implies !(#[trigger] lines[i]).contains('\n')
        && lines[i].len() > 0 by {
        lines_read_back(records[i], 0);
    }
    assert forall|i: int| 0 <= i < lines.len() - 1 implies ((#[trigger] lines[i]).len() == 0
        || lines[i].last() != '\r') by {
        let p = records[i];
        reveal_strlit(";title=");
        if p.title.len() > 0 {
            assert(lines[i].last() == p.title.last());
        } else {
            assert(lines[i].last() == ";title="@.last());
        }
    }
    text::joined_lines_split_again(lines);
    lemma_lines_read(records, lines, lines.len());
    assert(records.take(records.len() as int) =~= records);
}

proof fn lemma_lines_read(records: Seq<Persisted>, lines: Seq<Seq<char>>, n: nat)
    requires
        n <= lines.len(),
        lines == records.map_values(|p: Persisted| line_of(p)),
        records.len() <= MAX_PERSIST_PANELS,
        forall|i: int| 0 <= i < records.len() ==> is_plain(#[trigger] records[i]),
    ensures
        lines_read(lines, n) == Ok::<Seq<Persisted>, ManifestError>(records.take(n as int)),
    decreases n,
{
    if n > 0 {
        lemma_lines_read(records, lines, (n - 1) as nat);
        lines_read_back(records[n - 1], n as usize);
        assert(records.take(n as int) =~= records.take(n - 1).push(records[n - 1]));
    } else {
        assert(records.take(0) =~= Seq::<Persisted>::empty());
    }
}

proof fn lemma_line_end(p: Persisted)
    ensures
        text::without_return(line_of(p)) == line_of(
            Persisted { title: text::without_return(p.title), ..p },
        ),
{
    reveal_strlit(";title=");
    let line = line_of(p);
    let cut = line_of(Persisted { title: text::without_return(p.title), ..p });
    if p.title.len() > 0 {
        assert(line.last() == p.title.last());
        assert(text::without_return(line) =~= cut);
    } else {
        assert(line.last() == ";title="@.last());
        assert(cut =~= line);
    }
}

proof fn lemma_plain_prefix(records: Seq<Persisted>, all: Seq<Seq<char>>, k: nat)
    requires
        k <= records.len(),
        k <= all.len(),
        k <= MAX_PERSIST_PANELS,
        forall|i: int| 0 <= i < k ==> is_plain(#[trigger] records[i]),
        forall|i: int|
            0 <= i < k ==> #[trigger] all[i] == text::without_return(line_of(records[i])),
    ensures
        lines_read(all, k) matches Ok(read) && read.len() == k,
    decreases k,
{
    if k > 0 {
        lemma_plain_prefix(records, all, (k - 1) as nat);
        let p = records[k - 1];
        let cut = Persisted { title: text::without_return(p.title), ..p };
        lemma_line_end(p);
        assert(all[k - 1] == line_of(cut));
        assert forall|c: char| cut.title.contains(c) implies p.title.contains(c) by {
            let i = choose|i: int| 0 <= i < cut.title.len() && cut.title[i] == c;
            assert(p.title[i] == c);
        }
        lines_read_back(cut, k as usize);
    }
}

proof fn lemma_first_lines(records: Seq<Persisted>, k: int) -> (rest: Seq<char>)
    requires
        0 <= k < records.len(),
        forall|i: int| 0 <= i < k ==> is_plain(#[trigger] records[i]),
    ensures
        text::lines_of(document_of(records)).len() == k + text::lines_of(rest).len(),
        forall|i: int|
            0 <= i < k ==> #[trigger] text::lines_of(document_of(records))[i]
                == text::without_return(line_of(records[i])),
        forall|i: int|
            k <= i < text::lines_of(document_of(records)).len() ==> #[trigger] text::lines_of(
                document_of(records),
            )[i] == text::lines_of(rest)[i - k],
        if k + 1 < records.len() {
            exists|more: Seq<char>| rest == line_of(records[k]) + seq!['\n'] + more
        } else {
            rest == line_of(records[k])
        },
{
    let lines = records.map_values(|p: Persisted| line_of(p));
    assert forall|i: int| 0 <= i < k implies !(#[trigger] lines[i]).contains('\n') by {
        lines_read_back(records[i], 0);
    }
    text::first_lines_split_off(lines, k);
    let rest = text::joined_lines(lines.skip(k));
    assert(lines.skip(k)[0] == line_of(records[k]));
    if k + 1 < records.len() {
        let more = text::joined_lines(lines.skip(k).drop_first());
        assert(rest == line_of(records[k]) + seq!['\n'] + more);
    }
    rest
}

/// A manifest is refused at its first record whose title holds a separator.
pub proof fn manifests_with_separators_are_refused(records: Seq<Persisted>, k: int)
    requires
        0 <= k < records.len() <= MAX_PERSIST_PANELS,
        forall|i: int| 0 <= i < k ==> is_plain(#[trigger] records[i]),
        records[k].title.len() <= MAX_IDENTITY_TITLE_LEN,
        records[k].title.contains(';'),
        !records[k].title.contains('\n'),
    ensures
        document_read(document_of(records)) == Err::<Seq<Persisted>, ManifestError>(
            ManifestError::Malformed { line: (k + 1) as usize },
        ),
{
    let all = text::lines_of(document_of(records));
    let rest = lemma_first_lines(records, k);
    let p = records[k];
    let line = line_of(p);
    let head = lemma_head(p);
    let cut = Persisted { title: text::without_return(p.title), ..p };
    assert(cut.title.contains(';')) by {
        let i = choose|i: int| 0 <= i < p.title.len() && p.title[i] == ';';
        assert(cut.title[i] == ';');
    }
    titles_with_separators_are_refused(p, (k + 1) as usize);
    titles_with_separators_are_refused(cut, (k + 1) as usize);
    if k + 1 < records.len() {
        let more = choose|more: Seq<char>| rest == line + seq!['\n'] + more;
        text::first_line_splits_off(line, more);
        lemma_line_end(p);
        assert(all[k] == line_of(cut));
    } else {
        reveal_strlit("v=");
        text::index_of_is_first(line, '\n');
        assert(text::lines_of(rest) =~= seq![line]);
        assert(all[k] == line);
    }
    lemma_plain_prefix(records, all, k as nat);
    assert(lines_read(all, (k + 1) as nat) is Err);
    lemma_first_failure(all, (k + 1) as nat, all.len());
}

proof fn lemma_single_field(line: Seq<char>, no: usize)
    requires
        !line.contains(';'),
    ensures
        line_read(line, no) is Err,
{
    text::index_of_is_first(line, ';');
    assert(text::pieces(line, ';') =~= seq![line]);
    assert(seq![line].drop_last() =~= Seq::<Seq<char>>::empty());
    assert(drafted(Seq::<Seq<char>>::empty()) == Some(empty_draft()));
    assert(drafted(seq![line]) == with_field(empty_draft(), line));
}

/// A manifest is refused when the first title that is not plain holds a line
/// feed with text behind it that is no record of its own: up to the next line
/// feed it holds no separator.
pub proof fn manifests_with_feeds_are_refused(records: Seq<Persisted>, k: int)
    requires
        0 <= k < records.len() <= MAX_PERSIST_PANELS,
        forall|i: int| 0 <= i < k ==> is_plain(#[trigger] records[i]),
        records[k].title.contains('\n'),
        ({
            let tail = records[k].title.skip(text::index_of(records[k].title, '\n') + 1);
            &&& tail.len() > 0 || k + 1 < records.len()
            &&& !tail.take(text::index_of(tail, '\n')).contains(';')
        }),
    ensures
        document_read(document_of(records)) is Err,
{
    let all = text::lines_of(document_of(records));
    let rest = lemma_first_lines(records, k);
    let p = records[k];
    let f = text::index_of(p.title, '\n');
    text::index_of_is_first(p.title, '\n');
    let front = Persisted { title: p.title.take(f), ..p };
    let tail = p.title.skip(f + 1);
    let g = text::index_of(tail, '\n');
    text::index_of_is_first(tail, '\n');
    let head = lemma_head(front);
    assert(!front.title.contains('\n'));
    assert(line_of(p) =~= line_of(front) + seq!['\n'] + tail);
    let t = if k + 1 < records.len() {
        let more = choose|more: Seq<char>| rest == line_of(p) + seq!['\n'] + more;
        tail + seq!['\n'] + more
    } else {
        tail
    };
    assert(rest =~= line_of(front) + seq!['\n'] + t);
    text::first_line_splits_off(line_of(front), t);
    let next = tail.take(g);
    assert(!next.contains('\n'));
    if g < t.len() {
        assert(t[g] == '\n');
        assert(t =~= next + seq!['\n'] + t.skip(g + 1));
        text::first_line_splits_off(next, t.skip(g + 1));
        assert(all[k + 1] == text::without_return(next));
    } else {
        assert(next =~= t);
        text::index_of_is_first(t, '\n');
        assert(text::lines_of(t) =~= seq![t]);
        assert(all[k + 1] == next);
    }
    let line = all[k + 1];
    assert(!line.contains(';')) by {
        if line.contains(';') {
            let i = choose|i: int| 0 <= i < line.len() && line[i] == ';';
            assert(next[i] == ';');
        }
    }
    lemma_single_field(line, (k + 2) as usize);
    assert(lines_read(all, (k + 2) as nat) is Err);
    lemma_first_failure(all, (k + 2) as nat, all.len());
}

/// The condition of recording the identity.
pub open spec fn recorded_as(id: PanelId) -> spec_fn(Persisted) -> bool {
    |p: Persisted| p.id == id
}

/// The records stand in order of their ids.
pub open spec fn ordered(records: Seq<Persisted>) -> bool {
    forall|i: int, j: int|
        0 <= i <= j < records.len() ==> (#[trigger] records[i]).id.0 <= (
        #[trigger] records[j]).id.0
}

/// `plan` holds the records in order of their ids, and records of one id in
/// the order they had.
pub open spec fn is_stable_order(plan: Seq<Persisted>, records: Seq<Persisted>) -> bool {
    &&& ordered(plan)
    &&& forall|id: PanelId|
        #[trigger]
        seqs::kept(plan, recorded_as(id)) == seqs::kept(records, recorded_as(id))
}

/// There is only one such order, so equal manifests are restored alike.
pub proof fn stable_order_is_unique(a: Seq<Persisted>, b: Seq<Persisted>, records: Seq<Persisted>)
    requires
        is_stable_order(a, records),
        is_stable_order(b, records),
    ensures
        a == b,
{
    assert forall|id: PanelId|
        #[trigger]
        seqs::kept(a, recorded_as(id)) == seqs::kept(b, recorded_as(id)) by {
        assert(seqs::kept(a, recorded_as(id)) == seqs::kept(records, recorded_as(id)));
        assert(seqs::kept(b, recorded_as(id)) == seqs::kept(records, recorded_as(id)));
    }
    lemma_unique(a, b);
}

proof fn lemma_unique(a: Seq<Persisted>, b: Seq<Persisted>)
    requires
        ordered(a),
        ordered(b),
        forall|id: PanelId|
            #[trigger]
            seqs::kept(a, recorded_as(id)) == seqs::kept(b, recorded_as(id)),
    ensures
        a == b,
    decreases a.len() + b.len(),
{
    if a.len() == 0 && b.len() == 0 {
        assert(a =~= b);
    } else {
        lemma_last_found(a, b);
        lemma_last_found(b, a);
        let id = a.last().id;
        let p = recorded_as(id);
        assert(seqs::kept(a, p) == seqs::kept(b, p));
        assert(seqs::kept(a, p).last() == a.last());
        assert(seqs::kept(b, p).last() == b.last());
        let x = a.drop_last();
        let y = b.drop_last();
        assert forall|q: PanelId|
            #[trigger]
            seqs::kept(x, recorded_as(q)) == seqs::kept(y, recorded_as(q)) by {
            assert(seqs::kept(a, recorded_as(q)) == seqs::kept(b, recorded_as(q)));
            if q == id {
                assert(seqs::kept(x, p) =~= seqs::kept(a, p).drop_last());
                assert(seqs::kept(y, p) =~= seqs::kept(b, p).drop_last());
            }
        }
        lemma_unique(x, y);
        assert(a =~= x.push(a.last()));
        assert(b =~= y.push(b.last()));
    }
}

proof fn lemma_last_found(a: Seq<Persisted>, b: Seq<Persisted>)
    requires
        ordered(a),
        ordered(b),
        a.len() > 0 || b.len() > 0,
        forall|id: PanelId|
            #[trigger]
            seqs::kept(a, recorded_as(id)) == seqs::kept(b, recorded_as(id)),
    ensures
        a.len() > 0,
        b.len() > 0,
        a.last().id == b.last().id,
{
    if a.len() > 0 {
        let p = recorded_as(a.last().id);
        seqs::kept_holds(b, p);
        seqs::kept_holds(a, p);
        assert(a.contains(a.last())) by {
            assert(a[a.len() - 1] == a.last());
        }
        assert(seqs::kept(a, p).contains(a.last()));
        let k = choose|k: int| 0 <= k < b.len() && b[k] == a.last();
        assert(b.contains(a.last()));
        assert(b[k].id.0 <= b[b.len() - 1].id.0);
    }
    if b.len() > 0 {
        let p = recorded_as(b.last().id);
        seqs::kept_holds(b, p);
        seqs::kept_holds(a, p);
        assert(b.contains(b.last())) by {
            assert(b[b.len() - 1] == b.last());
        }
        assert(seqs::kept(b, p).contains(b.last()));
        let k = choose|k: int| 0 <= k < a.len() && a[k] == b.last();
        assert(a.contains(b.last()));
        assert(a[k].id.0 <= a[a.len() - 1].id.0);
    }
}

proof fn lemma_insert(plan: Seq<Persisted>, k: int, x: Persisted)
    requires
        ordered(plan),
        0 <= k <= plan.len(),
        forall|i: int| 0 <= i < k ==> (#[trigger] plan[i]).id.0 <= x.id.0,
        forall|i: int| k <= i < plan.len() ==> (#[trigger] plan[i]).id.0 > x.id.0,
    ensures
        ordered(plan.insert(k, x)),
        forall|id: PanelId|
            #[trigger]
            seqs::kept(plan.insert(k, x), recorded_as(id)) == seqs::kept(
                plan.push(x),
                recorded_as(id),
            ),
{
    let longer = plan.insert(k, x);
    assert forall|i: int, j: int| 0 <= i <= j < longer.len() implies (#[trigger] longer[i]).id.0 <= (
    #[trigger] longer[j]).id.0 by {
        let a = if i > k {
            i - 1
        } else {
            i
        };
        let b = if j > k {
            j - 1
        } else {
            j
        };
        if i != k {
            assert(longer[i] == plan[a]);
        }
        if j != k {
            assert(longer[j] == plan[b]);
        }
    }
    let head = plan.take(k);
    let tail = plan.skip(k);
    assert forall|id: PanelId|
        #[trigger]
        seqs::kept(longer, recorded_as(id)) == seqs::kept(plan.push(x), recorded_as(id)) by {
        let p = recorded_as(id);
        assert(longer =~= head + seq![x] + tail);
        assert(plan.push(x) =~= head + tail + seq![x]);
        seqs::kept_of_runs(head + seq![x], tail, p);
        seqs::kept_of_runs(head, seq![x], p);
        seqs::kept_of_runs(head + tail, seq![x], p);
        seqs::kept_of_runs(head, tail, p);
        if id == x.id {
            assert forall|i: int| 0 <= i < tail.len() implies !p(#[trigger] tail[i]) by {
                assert(tail[i] == plan[i + k]);
            }
            seqs::kept_none(tail, p);
        } else {
            assert forall|i: int| 0 <= i < seq![x].len() implies !p(#[trigger] seq![x][i]) by {}
            seqs::kept_none(seq![x], p);
        }
        assert(seqs::kept(longer, p) =~= seqs::kept(plan.push(x), p));
    }
}

/// The order in which recorded panels come back: by id when identities are
/// kept, as recorded otherwise.
#[must_use]
pub fn plan_restore(manifest: &RestartManifest, policy: PersistencePolicy) -> (plan: Vec<
    PersistedPanel,
>)
    ensures
        match policy {
            PersistencePolicy::Ephemeral => records_of(plan@) == manifest@,
            PersistencePolicy::StableIdentity => is_stable_order(records_of(plan@), manifest@),
        },
{
    if policy == PersistencePolicy::Ephemeral {
        return copied(&manifest.panels);
    }
    let mut plan: Vec<PersistedPanel> = Vec::new();
    let ghost all = manifest@;
    let mut i: usize = 0;
    assert(records_of(plan@) =~= all.take(0));
    while i < manifest.panels.len()
        invariant
            0 <= i <= manifest.panels.len(),
            all == manifest@,
            is_stable_order(records_of(plan@), all.take(i as int)),
        decreases manifest.panels.len() - i,
    {
        let ghost before = records_of(plan@);
        let ghost x = all[i as int];
        let panel = manifest.panels[i].clone();
        let mut k: usize = plan.len();
        while k > 0 && plan[k - 1].id.0 > panel.id.0
            invariant
                0 <= k <= plan.len(),
                before == records_of(plan@),
                panel@ == x,
                forall|m: int| k <= m < plan.len() ==> (#[trigger] before[m]).id.0 > x.id.0,
            decreases k,
        {
            assert(before[k - 1] == plan@[k - 1]@);
            k = k - 1;
        }
        assert forall|m: int| 0 <= m < k implies (#[trigger] before[m]).id.0 <= x.id.0 by {
            assert(before[k - 1] == plan@[k - 1]@);
            assert(before[m].id.0 <= before[k - 1].id.0);
        }
        plan.insert(k, panel);
        proof {
            lemma_insert(before, k as int, x);
            assert(records_of(plan@) =~= before.insert(k as int, x));
            let part = all.take(i + 1);
            assert(part.drop_last() =~= all.take(i as int));
            assert(part.last() == x);
            assert(before.push(x).drop_last() =~= before);
            assert forall|id: PanelId|
                #[trigger]
                seqs::kept(records_of(plan@), recorded_as(id)) == seqs::kept(
                part,
                recorded_as(id),
            ) by {
                assert(seqs::kept(before, recorded_as(id)) == seqs::kept(
                    all.take(i as int),
                    recorded_as(id),
                ));
            }
        }
        i = i + 1;
    }
    assert(all.take(i as int) =~= all);
    plan
}

/// A field sets one value of a record: `v` the version, `id` the panel and `ws`
/// the workspace, each a number that fits, and `title` the title, which is the
/// last field of a record. A later field wins over an earlier one.
pub proof fn fields_set_one_value(d: ManifestDraft, value: Seq<char>)
    requires
        d.title is None,
    ensures
        ({
            let field = |key: Seq<char>| with_field(d, key + seq!['='] + value);
            &&& field(seq!['v']) == (match text::number_in(value, u32::MAX as nat) {
                Some(n) => Some(ManifestDraft { version: Some(n as u32), ..d }),
                None => None,
            })
            &&& field(seq!['i', 'd']) == (match text::number_in(value, u64::MAX as nat) {
                Some(n) => Some(ManifestDraft { id: Some(n as u64), ..d }),
                None => None,
            })
            &&& field(seq!['w', 's']) == (match text::number_in(value, u32::MAX as nat) {
                Some(n) => Some(ManifestDraft { workspace: Some(n as u32), ..d }),
                None => None,
            })
            &&& field(seq!['t', 'i', 't', 'l', 'e']) == Some(
                ManifestDraft { title: Some(value), ..d },
            )
        }),
{
    reveal_strlit("v");
    reveal_strlit("id");
    reveal_strlit("ws");
    reveal_strlit("title");
    assert("v"@ =~= seq!['v']);
    assert("id"@ =~= seq!['i', 'd']);
    assert("ws"@ =~= seq!['w', 's']);
    assert("title"@ =~= seq!['t', 'i', 't', 'l', 'e']);
    assert("id"@[0] != "ws"@[0]);
    lemma_field(seq!['v'], value);
    lemma_field(seq!['i', 'd'], value);
    lemma_field(seq!['w', 's'], value);
    lemma_field(seq!['t', 'i', 't', 'l', 'e'], value);
}

/// What a draft with its fields makes of a line: a record of version 1 with a
/// panel, a workspace and a title of at most 64 characters, and else the first
/// thing that it lacks.
pub proof fn lines_need_all_fields(line: Seq<char>, no: usize)
    ensures
        line.len() > 512 ==> line_read(line, no) == Err::<Persisted, ManifestError>(
            ManifestError::LineTooLong { line: no },
        ),
        line.len() <= 512 ==> match drafted(text::pieces(line, ';')) {
            Some(d) => match line_read(line, no) {
                Ok(p) => d.version == Some(1u32) && d.id == Some(p.id.0) && d.workspace == Some(
                    p.workspace,
                ) && d.title == Some(p.title) && p.title.len() <= 64,
                Err(ManifestError::UnsupportedVersion { found, supported }) => supported == 1
                    && d.version == Some(found) && found != 1,
                Err(ManifestError::TitleTooLong { line: at }) => at == no && d.version == Some(1u32)
                    && (d.title matches Some(t) && t.len() > 64),
                Err(ManifestError::Malformed { line: at }) => at == no && (d.version is None
                    || d.version == Some(1u32) && (d.id is None || d.workspace is None || d.title
                    is None)),
                Err(_) => false,
            },
            None => line_read(line, no) == Err::<Persisted, ManifestError>(
                ManifestError::Malformed { line: no },
            ),
        },
{
}

/// A plan holds every record once, by rising id, and the records of one id in
/// the order in which they were given.
pub proof fn plans_hold_every_record(
    plan: Seq<Persisted>,
    records: Seq<Persisted>,
    i: int,
    j: int,
    id: PanelId,
)
    requires
        is_stable_order(plan, records),
    ensures
        0 <= i <= j < plan.len() ==> plan[i].id.0 <= plan[j].id.0,
        plan.filter(|p: Persisted| p.id == id) == records.filter(|p: Persisted| p.id == id),
        forall|p: Persisted| plan.contains(p) <==> #[trigger] records.contains(p),
{
    assert forall|p: Persisted| plan.contains(p) <==> #[trigger] records.contains(p) by {
        seqs::kept_holds(plan, recorded_as(p.id));
        seqs::kept_holds(records, recorded_as(p.id));
        assert(seqs::kept(plan, recorded_as(p.id)) == seqs::kept(records, recorded_as(p.id)));
        assert(seqs::kept(plan, recorded_as(p.id)).contains(p) == (plan.contains(p) && recorded_as(
            p.id,
        )(p)));
        assert(seqs::kept(records, recorded_as(p.id)).contains(p) == (records.contains(p)
            && recorded_as(p.id)(p)));
    }
    seqs::keeping_filters(plan, recorded_as(id));
    seqs::keeping_filters(records, recorded_as(id));
    assert(recorded_as(id) =~= (|p: Persisted| p.id == id));
    assert(seqs::kept(plan, recorded_as(id)) == seqs::kept(records, recorded_as(id)));
}

/// Lines are read one after the other: the first faulty one is reported with its
/// number, and a record beyond 256 is one too many.
pub proof fn manifest_lines_add_up(lines: Seq<Seq<char>>, line: Seq<char>)
    requires
        lines.len() < usize::MAX,
    ensures
        ({
            let n = lines.len();
            let all = lines_read(lines.push(line), n + 1);
            match lines_read(lines, n) {
                Err(e) => all == Err::<Seq<Persisted>, ManifestError>(e),
                Ok(records) => match line_read(line, (n + 1) as usize) {
                    Err(e) => all == Err::<Seq<Persisted>, ManifestError>(e),
                    Ok(p) => if records.len() < 256 {
                        all == Ok::<Seq<Persisted>, ManifestError>(records.push(p))
                    } else {
                        all matches Err(ManifestError::TooManyPanels { found, cap }) && cap == 256
                    },
                },
            }
        }),
{
    lines_read_prefix(lines, line, lines.len());
}

proof fn lines_read_prefix(lines: Seq<Seq<char>>, line: Seq<char>, n: nat)
    requires
        n <= lines.len(),
    ensures
        lines_read(lines.push(line), n) == lines_read(lines, n),
    decreases n,
{
    if n > 0 {
        lines_read_prefix(lines, line, (n - 1) as nat);
        assert(lines.push(line)[n - 1] == lines[n - 1]);
    }
}

/// How a record is written: its version, its panel, its workspace and its title,
/// each under its own key, with separators between them; and a document is its
/// records with line feeds between.
pub proof fn manifest_lines_are_written_in_order(p: Persisted, records: Seq<Persisted>)
    ensures
        line_of(p) == "v="@ + text::decimal(1) + ";id="@ + text::decimal(p.id.0 as nat) + ";ws="@
            + text::decimal(p.workspace as nat) + ";title="@ + p.title,
        document_of(seq![p]) == line_of(p),
        records.len() > 0 ==> document_of(seq![p] + records) == line_of(p) + seq!['\n']
            + document_of(records),
{
    let f = |p: Persisted| line_of(p);
    let one = seq![p].map_values(f);
    assert(one =~= seq![line_of(p)]);
    let all = (seq![p] + records).map_values(f);
    assert(all.drop_first() =~= records.map_values(f));
}

} // verus!
