//! Accessibility projection: roles of scene kinds, the readable text of a
//! terminal, the chrome around it, and the tree that joins them under one
//! window. The projection only reads; every bound and every missing role makes
//! it fail as a whole.

use crate::term_state::{Cell, CursorPosition, Snapshot};
use crate::text;
use vstd::prelude::*;

pub use crate::a11y_tree::{
    build_a11y_tree, A11yNode, A11yNodeId, A11yNodeKind, A11yTree, A11yTreeBuilder,
};

verus! {

/// Most characters of an accessible name or state.
pub const MAX_ACCESSIBLE_NAME_LEN: usize = 256;

/// Most nodes of one tree.
pub const MAX_A11Y_TREE_NODES: usize = 4096;

/// Refusal to project.
#[derive(Debug, Clone, Copy, PartialEq, Eq, Structural, Hash)]
pub enum A11yError {
    /// A scene kind or purpose has no role.
    UnmappedSceneKind,
    /// A name or state is too long.
    NameTooLong {
        /// Its characters.
        len: usize,
        /// The bound.
        cap: usize,
    },
    /// The tree has no room.
    TooManyNodes {
        /// Nodes that it would hold.
        count: usize,
        /// The bound.
        cap: usize,
    },
    /// The parent is not a node of the tree.
    UnknownParent,
}

impl A11yError {
    /// The message of the error.
    pub open spec fn spelled(self) -> Seq<char> {
        match self {
            A11yError::UnmappedSceneKind => "unmapped scene kind: no role mapping"@,
            A11yError::NameTooLong { len, cap } => "accessible name too long: "@ + text::decimal(
                len as nat,
            ) + " chars exceeds cap "@ + text::decimal(cap as nat),
            A11yError::TooManyNodes { count, cap } => "accessibility tree too large: "@
                + text::decimal(count as nat) + " nodes exceeds cap "@ + text::decimal(cap as nat),
            A11yError::UnknownParent => "unknown parent node: not part of this tree"@,
        }
    }

    /// Spells the error.
    #[must_use]
    pub fn text(&self) -> (out: String)
        ensures
            out@ == self.spelled(),
    {
        match self {
            Self::UnmappedSceneKind => "unmapped scene kind: no role mapping".to_owned(),
            Self::NameTooLong { len, cap } => text::ending_numbers(
                "accessible name too long: ",
                *len as u64,
                " chars exceeds cap ",
                *cap as u64,
            ),
            Self::TooManyNodes { count, cap } => text::ending_numbers(
                "accessibility tree too large: ",
                *count as u64,
                " nodes exceeds cap ",
                *cap as u64,
            ),
            Self::UnknownParent => "unknown parent node: not part of this tree".to_owned(),
        }
    }
}

/// Kinds of scene nodes.
#[derive(Debug, Clone, Copy, PartialEq, Eq, Structural, Hash)]
pub enum SceneKind {
    /// Styled text.
    Text,
    /// Row of children.
    Row,
    /// Column of children.
    Column,
    /// Bordered block.
    Block,
    /// Image placement.
    Image,
    /// Code block.
    CodeBlock,
    /// Table.
    Table,
    /// List.
    List,
    /// Horizontal rule.
    Rule,
    /// A kind of a newer producer; it has no role.
    Unknown,
}

impl SceneKind {
    /// Every kind.
    #[must_use]
    pub fn all() -> (kinds: [Self; 10])
        ensures
            kinds@ == seq![
                SceneKind::Text,
                SceneKind::Row,
                SceneKind::Column,
                SceneKind::Block,
                SceneKind::Image,
                SceneKind::CodeBlock,
                SceneKind::Table,
                SceneKind::List,
                SceneKind::Rule,
                SceneKind::Unknown,
            ],
    {
        let kinds = [
            Self::Text,
            Self::Row,
            Self::Column,
            Self::Block,
            Self::Image,
            Self::CodeBlock,
            Self::Table,
            Self::List,
            Self::Rule,
            Self::Unknown,
        ];
        assert(kinds@ =~= seq![
            SceneKind::Text,
            SceneKind::Row,
            SceneKind::Column,
            SceneKind::Block,
            SceneKind::Image,
            SceneKind::CodeBlock,
            SceneKind::Table,
            SceneKind::List,
            SceneKind::Rule,
            SceneKind::Unknown,
        ]);
        kinds
    }

    /// Every kind with a role.
    #[must_use]
    pub fn mapped() -> (kinds: [Self; 9])
        ensures
            kinds@ == seq![
                SceneKind::Text,
                SceneKind::Row,
                SceneKind::Column,
                SceneKind::Block,
                SceneKind::Image,
                SceneKind::CodeBlock,
                SceneKind::Table,
                SceneKind::List,
                SceneKind::Rule,
            ],
    {
        let kinds = [
            Self::Text,
            Self::Row,
            Self::Column,
            Self::Block,
            Self::Image,
            Self::CodeBlock,
            Self::Table,
            Self::List,
            Self::Rule,
        ];
        assert(kinds@ =~= seq![
            SceneKind::Text,
            SceneKind::Row,
            SceneKind::Column,
            SceneKind::Block,
            SceneKind::Image,
            SceneKind::CodeBlock,
            SceneKind::Table,
            SceneKind::List,
            SceneKind::Rule,
        ]);
        kinds
    }
}

/// Accessible roles.
#[derive(Debug, Clone, Copy, PartialEq, Eq, Structural, Hash)]
pub enum A11yRole {
    /// Running text.
    Text,
    /// Container.
    Group,
    /// Code block.
    Code,
    /// Table.
    Table,
    /// List.
    List,
    /// Button.
    Button,
    /// Text input.
    Input,
    /// Separator.
    Separator,
    /// Image placement.
    Image,
}

impl A11yRole {
    /// The name of the role.
    pub open spec fn spelled(self) -> Seq<char> {
        match self {
            A11yRole::Text => "text"@,
            A11yRole::Group => "group"@,
            A11yRole::Code => "code"@,
            A11yRole::Table => "table"@,
            A11yRole::List => "list"@,
            A11yRole::Button => "button"@,
            A11yRole::Input => "input"@,
            A11yRole::Separator => "separator"@,
            A11yRole::Image => "image"@,
        }
    }

    /// The name of the role.
    #[must_use]
    pub fn as_str(self) -> (name: &'static str)
        ensures
            name@ == self.spelled(),
    {
        match self {
            Self::Text => "text",
            Self::Group => "group",
            Self::Code => "code",
            Self::Table => "table",
            Self::List => "list",
            Self::Button => "button",
            Self::Input => "input",
            Self::Separator => "separator",
            Self::Image => "image",
        }
    }
}

/// The role of a scene kind.
pub open spec fn mapped_role(kind: SceneKind) -> Option<A11yRole> {
    match kind {
        SceneKind::Text => Some(A11yRole::Text),
        SceneKind::Row => Some(A11yRole::Group),
        SceneKind::Column => Some(A11yRole::Group),
        SceneKind::Block => Some(A11yRole::Group),
        SceneKind::Image => Some(A11yRole::Image),
        SceneKind::CodeBlock => Some(A11yRole::Code),
        SceneKind::Table => Some(A11yRole::Table),
        SceneKind::List => Some(A11yRole::List),
        SceneKind::Rule => Some(A11yRole::Separator),
        SceneKind::Unknown => None,
    }
}

/// The role of a scene kind; an unknown kind has none.
pub fn role_of(kind: SceneKind) -> (r: Result<A11yRole, A11yError>)
    ensures
        r == match mapped_role(kind) {
            Some(role) => Ok::<A11yRole, A11yError>(role),
            None => Err(A11yError::UnmappedSceneKind),
        },
{
    match kind {
        SceneKind::Text => Ok(A11yRole::Text),
        SceneKind::Row | SceneKind::Column | SceneKind::Block => Ok(A11yRole::Group),
        SceneKind::CodeBlock => Ok(A11yRole::Code),
        SceneKind::Table => Ok(A11yRole::Table),
        SceneKind::List => Ok(A11yRole::List),
        SceneKind::Rule => Ok(A11yRole::Separator),
        SceneKind::Image => Ok(A11yRole::Image),
        SceneKind::Unknown => Err(A11yError::UnmappedSceneKind),
    }
}

/// The role of a declared purpose.
pub open spec fn declared_role(purpose: Seq<char>) -> Option<A11yRole> {
    if purpose == "button"@ {
        Some(A11yRole::Button)
    } else if purpose == "input"@ {
        Some(A11yRole::Input)
    } else {
        None
    }
}

/// The role of a declared purpose, `button` or `input`; any other has none.
pub fn interactive_role(purpose: &str) -> (r: Result<A11yRole, A11yError>)
    ensures
        r == match declared_role(purpose@) {
            Some(role) => Ok::<A11yRole, A11yError>(role),
            None => Err(A11yError::UnmappedSceneKind),
        },
{
    if text::same_text(purpose, "button") {
        Ok(A11yRole::Button)
    } else if text::same_text(purpose, "input") {
        Ok(A11yRole::Input)
    } else {
        Err(A11yError::UnmappedSceneKind)
    }
}

/// Every kind of a scene has a role.
pub open spec fn all_mapped(kinds: Seq<SceneKind>) -> bool {
    forall|i: int| 0 <= i < kinds.len() ==> mapped_role(#[trigger] kinds[i]) is Some
}

/// Checks that every kind of a scene has a role.
pub fn validate_scene(kinds: &[SceneKind]) -> (r: Result<(), A11yError>)
    ensures
        r == if all_mapped(kinds@) {
            Ok::<(), A11yError>(())
        } else {
            Err(A11yError::UnmappedSceneKind)
        },
{
    let mut i: usize = 0;
    while i < kinds.len()
        invariant
            0 <= i <= kinds.len(),
            forall|j: int| 0 <= j < i ==> mapped_role(#[trigger] kinds@[j]) is Some,
        decreases kinds.len() - i,
    {
        if let Err(e) = role_of(kinds[i]) {
            assert(mapped_role(kinds@[i as int]) is None);
            return Err(e);
        }
        i = i + 1;
    }
    Ok(())
}

/// Why a name is refused.
pub open spec fn name_fault(name: Seq<char>) -> Option<A11yError> {
    if name.len() > MAX_ACCESSIBLE_NAME_LEN {
        Some(A11yError::NameTooLong { len: name.len() as usize, cap: MAX_ACCESSIBLE_NAME_LEN })
    } else {
        None
    }
}

/// Why an optional state is refused.
pub open spec fn state_fault(state: Option<Seq<char>>) -> Option<A11yError> {
    match state {
        Some(s) => name_fault(s),
        None => None,
    }
}

/// The characters of an optional text.
pub open spec fn chars_in(s: Option<&str>) -> Option<Seq<char>> {
    match s {
        Some(s) => Some(s@),
        None => None,
    }
}

/// The characters of an optional owned text.
pub open spec fn chars_of_owned(s: Option<String>) -> Option<Seq<char>> {
    match s {
        Some(s) => Some(s@),
        None => None,
    }
}

fn check_name_len(name: &str) -> (r: Result<(), A11yError>)
    ensures
        r == match name_fault(name@) {
            Some(e) => Err::<(), A11yError>(e),
            None => Ok(()),
        },
{
    let len: usize = text::chars_of(name).len();
    if len > MAX_ACCESSIBLE_NAME_LEN {
        return Err(A11yError::NameTooLong { len, cap: MAX_ACCESSIBLE_NAME_LEN });
    }
    Ok(())
}

fn owned(s: Option<&str>) -> (out: Option<String>)
    ensures
        chars_of_owned(out) == chars_in(s),
{
    match s {
        Some(s) => Some(s.to_owned()),
        None => None,
    }
}

/// An interactive control: its role comes from a declared purpose.
#[derive(Debug, Clone, PartialEq, Eq)]
pub struct InteractiveNode {
    role: A11yRole,
    name: String,
    enabled: bool,
}

impl InteractiveNode {
    /// The role.
    pub closed spec fn exposed_role(self) -> A11yRole {
        self.role
    }

    /// The name.
    pub closed spec fn exposed_name(self) -> Seq<char> {
        self.name@
    }

    /// Whether it can be activated.
    pub closed spec fn is_active(self) -> bool {
        self.enabled
    }

    /// Builds a control for a purpose; the purpose is checked first.
    pub fn new(purpose: &str, name: &str, enabled: bool) -> (r: Result<Self, A11yError>)
        ensures
            match r {
                Ok(node) => declared_role(purpose@) == Some(node.exposed_role()) && name_fault(
                    name@,
                ) is None && node.exposed_name() == name@ && node.is_active() == enabled,
                Err(e) => if declared_role(purpose@) is None {
                    e == A11yError::UnmappedSceneKind
                } else {
                    name_fault(name@) == Some(e)
                },
            },
    {
        let role = match interactive_role(purpose) {
            Ok(role) => role,
            Err(e) => return Err(e),
        };
        match check_name_len(name) {
            Ok(_) => Ok(Self { role, name: name.to_owned(), enabled }),
            Err(e) => Err(e),
        }
    }

    /// The role.
    #[must_use]
    pub fn role(&self) -> (role: A11yRole)
        ensures
            role == self.exposed_role(),
    {
        self.role
    }

    /// The name.
    #[must_use]
    pub fn name(&self) -> (name: &str)
        ensures
            name@ == self.exposed_name(),
    {
        self.name.as_str()
    }

    /// Whether it can be activated.
    #[must_use]
    pub fn is_enabled(&self) -> (enabled: bool)
        ensures
            enabled == self.is_active(),
    {
        self.enabled
    }

    /// The activation, which a disabled control does not have.
    #[must_use]
    pub fn activation_label(&self) -> (label: Option<&'static str>)
        ensures
            chars_in(label) == if self.is_active() {
                Some("activate"@)
            } else {
                None
            },
    {
        if self.enabled {
            Some("activate")
        } else {
            None
        }
    }
}

/// What the exposure of a terminal covers.
pub const FIDELITY_BOUNDARY: &'static str = "terminal exposure covers readable text runs and cursor position only; absolute cursor addressing, SGR styling as semantic structure, graphics protocols, and images are not represented";

/// Readable text of one row.
#[derive(Debug, Clone, PartialEq, Eq)]
pub struct TextRun {
    /// Row, from zero.
    pub row: usize,
    /// The text without white space at its end.
    pub text: String,
}

/// The readable text of a run of cells: trailing halves of wide characters are
/// skipped, combining characters stay on their base.
pub open spec fn cell_text(cells: Seq<Cell>) -> Seq<char>
    decreases cells.len(),
{
    if cells.len() == 0 {
        Seq::empty()
    } else if cells.last().spacer {
        cell_text(cells.drop_last())
    } else {
        cell_text(cells.drop_last()) + seq![cells.last().glyph] + cells.last().zerowidth@
    }
}

/// The cells of a row, as far as the grid has them.
pub open spec fn row_cells(cells: Seq<Cell>, width: int, row: int) -> Seq<Cell> {
    if row * width >= cells.len() {
        Seq::empty()
    } else if row * width + width <= cells.len() {
        cells.subrange(row * width, row * width + width)
    } else {
        cells.skip(row * width)
    }
}

/// The readable text of a row.
pub open spec fn row_text(snapshot: Snapshot, row: int) -> Seq<char> {
    text::trimmed_end(cell_text(row_cells(snapshot.cells@, snapshot.width as int, row)))
}

/// What a text run says.
pub struct Line {
    /// Row, from zero.
    pub row: int,
    /// The text.
    pub text: Seq<char>,
}

/// The rows with readable text among the first `n`.
pub open spec fn lines_in(snapshot: Snapshot, n: int) -> Seq<Line>
    decreases n,
{
    if n <= 0 {
        Seq::empty()
    } else if row_text(snapshot, n - 1).len() == 0 {
        lines_in(snapshot, n - 1)
    } else {
        lines_in(snapshot, n - 1).push(Line { row: n - 1, text: row_text(snapshot, n - 1) })
    }
}

/// The rows with readable text.
pub open spec fn lines_of(snapshot: Snapshot) -> Seq<Line> {
    if snapshot.width == 0 {
        Seq::empty()
    } else {
        lines_in(snapshot, snapshot.height as int)
    }
}

/// What a list of text runs says.
pub open spec fn run_lines(runs: Seq<TextRun>) -> Seq<Line> {
    Seq::new(runs.len(), |i: int| Line { row: runs[i].row as int, text: runs[i].text@ })
}

fn read_row(cells: &Vec<Cell>, width: usize, row: usize) -> (out: Vec<char>)
    ensures
        out@ == cell_text(row_cells(cells@, width as int, row as int)),
{
    let mut out: Vec<char> = Vec::new();
    let count: usize = cells.len();
    let start: usize = match row.checked_mul(width) {
        Some(start) => start,
        None => {
            return out;
        },
    };
    if start >= count {
        return out;
    }
    let end: usize = if count - start < width {
        count
    } else {
        start + width
    };
    let ghost all = row_cells(cells@, width as int, row as int);
    assert(all =~= cells@.subrange(start as int, end as int));
    let mut i: usize = start;
    assert(all.take(0) =~= Seq::<Cell>::empty());
    while i < end
        invariant
            start <= i <= end <= cells.len(),
            all == cells@.subrange(start as int, end as int),
            out@ == cell_text(all.take(i - start)),
        decreases end - i,
    {
        let cell = &cells[i];
        assert(all.take(i - start + 1).drop_last() =~= all.take(i - start));
        assert(all.take(i - start + 1).last() == *cell);
        if !cell.spacer {
            out.push(cell.glyph);
            let ghost before = out@;
            let mut k: usize = 0;
            assert(before + cell.zerowidth@.take(0) =~= before);
            while k < cell.zerowidth.len()
                invariant
                    0 <= k <= cell.zerowidth.len(),
                    out@ == before + cell.zerowidth@.take(k as int),
                decreases cell.zerowidth.len() - k,
            {
                out.push(cell.zerowidth[k]);
                k = k + 1;
                assert(out@ =~= before + cell.zerowidth@.take(k as int));
            }
            assert(cell.zerowidth@.take(k as int) =~= cell.zerowidth@);
            assert(out@ =~= cell_text(all.take(i - start + 1)));
        }
        i = i + 1;
    }
    assert(all.take(i - start) =~= all);
    out
}

/// The readable text of a terminal: one run for each row that has any, in row
/// order.
#[must_use]
pub fn terminal_text_runs(snapshot: &Snapshot) -> (runs: Vec<TextRun>)
    ensures
        run_lines(runs@) == lines_of(*snapshot),
{
    let mut runs: Vec<TextRun> = Vec::new();
    assert(run_lines(runs@) =~= Seq::<Line>::empty());
    if snapshot.width == 0 || snapshot.height == 0 {
        return runs;
    }
    let mut row: usize = 0;
    while row < snapshot.height
        invariant
            0 <= row <= snapshot.height,
            run_lines(runs@) == lines_in(*snapshot, row as int),
        decreases snapshot.height - row,
    {
        let read = read_row(&snapshot.cells, snapshot.width, row);
        let trimmed = text::trim_end(read.as_slice());
        if trimmed.len() > 0 {
            let ghost before = runs@;
            runs.push(TextRun { row, text: text::string_of(trimmed.as_slice()) });
            assert(run_lines(runs@) =~= run_lines(before).push(
                Line { row: row as int, text: row_text(*snapshot, row as int) },
            ));
        }
        row = row + 1;
    }
    runs
}

/// What a terminal exposes.
#[derive(Debug, Clone, PartialEq, Eq)]
pub struct TerminalExposure {
    /// Name of the region: the window title.
    pub title: String,
    /// The readable text.
    pub runs: Vec<TextRun>,
    /// Where the cursor stands.
    pub cursor: CursorPosition,
    /// Whether the cursor is shown.
    pub cursor_visible: bool,
}

/// Exposes a terminal.
#[must_use]
pub fn expose_terminal(snapshot: &Snapshot) -> (exposure: TerminalExposure)
    ensures
        exposure.title@ == snapshot.title@,
        run_lines(exposure.runs@) == lines_of(*snapshot),
        exposure.cursor == snapshot.cursor.position,
        exposure.cursor_visible == snapshot.cursor.visible,
{
    TerminalExposure {
        title: snapshot.title.clone(),
        runs: terminal_text_runs(snapshot),
        cursor: snapshot.cursor.position,
        cursor_visible: snapshot.cursor.visible,
    }
}

/// Every run holds text, its rows rise, and they are rows of the terminal.
pub proof fn lines_rise(snapshot: Snapshot, n: int, i: int, j: int)
    requires
        n >= 0,
        0 <= i < j < lines_in(snapshot, n).len(),
    ensures
        0 <= lines_in(snapshot, n)[i].row < lines_in(snapshot, n)[j].row < n,
        lines_in(snapshot, n)[j].text.len() > 0,
        lines_in(snapshot, n)[i].text.len() > 0,
    decreases n,
{
    if n > 0 {
        let before = lines_in(snapshot, n - 1);
        if j < before.len() {
            lines_rise(snapshot, n - 1, i, j);
        } else {
            lemma_line(snapshot, n - 1, i);
        }
    }
}

proof fn lemma_line(snapshot: Snapshot, n: int, i: int)
    requires
        0 <= i < lines_in(snapshot, n).len(),
    ensures
        0 <= lines_in(snapshot, n)[i].row < n,
        lines_in(snapshot, n)[i].text.len() > 0,
    decreases n,
{
    if n > 0 {
        if i < lines_in(snapshot, n - 1).len() {
            lemma_line(snapshot, n - 1, i);
        }
    }
}

/// Kinds of chrome surfaces.
#[derive(Debug, Clone, Copy, PartialEq, Eq, Structural, Hash)]
pub enum ChromeKind {
    /// Status bar.
    Bar,
    /// Side rail.
    Rail,
    /// Tab strip.
    TabStrip,
    /// Notification.
    Notification,
    /// Overlay.
    Overlay,
}

impl ChromeKind {
    /// The name of the kind.
    pub open spec fn spelled(self) -> Seq<char> {
        match self {
            ChromeKind::Bar => "bar"@,
            ChromeKind::Rail => "rail"@,
            ChromeKind::TabStrip => "tablist"@,
            ChromeKind::Notification => "notification"@,
            ChromeKind::Overlay => "overlay"@,
        }
    }

    /// The name of the kind.
    #[must_use]
    pub fn as_str(self) -> (name: &'static str)
        ensures
            name@ == self.spelled(),
    {
        match self {
            Self::Bar => "bar",
            Self::Rail => "rail",
            Self::TabStrip => "tablist",
            Self::Notification => "notification",
            Self::Overlay => "overlay",
        }
    }
}

/// A chrome surface: it is named and announces a state, and never takes focus.
#[derive(Debug, PartialEq, Eq)]
pub struct ChromeNode {
    kind: ChromeKind,
    name: String,
    active_item: Option<String>,
}

/// What a chrome surface exposes.
pub struct Chrome {
    /// Its kind.
    pub kind: ChromeKind,
    /// Its name.
    pub name: Seq<char>,
    /// Its announced state.
    pub state: Option<Seq<char>>,
}

impl View for ChromeNode {
    type V = Chrome;

    closed spec fn view(&self) -> Chrome {
        Chrome { kind: self.kind, name: self.name@, state: chars_of_owned(self.active_item) }
    }
}

impl ChromeNode {
    #[verifier::type_invariant]
    spec fn well_formed(self) -> bool {
        name_fault(self.name@) is None && state_fault(chars_of_owned(self.active_item)) is None
    }

    /// Describes a chrome surface; the name is checked first.
    pub fn new(kind: ChromeKind, name: &str, active_item: Option<&str>) -> (r: Result<
        Self,
        A11yError,
    >)
        ensures
            match r {
                Ok(node) => name_fault(name@) is None && state_fault(chars_in(active_item)) is None
                    && node@ == (Chrome { kind, name: name@, state: chars_in(active_item) }),
                Err(e) => if name_fault(name@) is Some {
                    name_fault(name@) == Some(e)
                } else {
                    state_fault(chars_in(active_item)) == Some(e)
                },
            },
    {
        match check_name_len(name) {
            Ok(_) => {},
            Err(e) => return Err(e),
        }
        if let Some(active) = active_item {
            match check_name_len(active) {
                Ok(_) => {},
                Err(e) => return Err(e),
            }
        }
        Ok(Self { kind, name: name.to_owned(), active_item: owned(active_item) })
    }

    /// The kind of the surface.
    #[must_use]
    pub fn kind(&self) -> (kind: ChromeKind)
        ensures
            kind == self@.kind,
    {
        self.kind
    }

    /// The name.
    #[must_use]
    pub fn accessible_name(&self) -> (name: &str)
        ensures
            name@ == self@.name,
            name_fault(name@) is None,
    {
        proof {
            use_type_invariant(self);
        }
        self.name.as_str()
    }

    /// The announced state.
    #[must_use]
    pub fn active_item(&self) -> (state: Option<&str>)
        ensures
            chars_in(state) == self@.state,
            state_fault(chars_in(state)) is None,
    {
        proof {
            use_type_invariant(self);
        }
        match &self.active_item {
            Some(s) => Some(s.as_str()),
            None => None,
        }
    }

    /// Whether the surface takes focus by tabbing: it never does.
    #[must_use]
    pub fn is_tab_stop(&self) -> (stop: bool)
        ensures
            !stop,
    {
        false
    }
}

impl Clone for ChromeNode {
    fn clone(&self) -> (node: Self)
        ensures
            node@ == self@,
    {
        proof {
            use_type_invariant(self);
        }
        let active_item = match &self.active_item {
            Some(s) => Some(s.clone()),
            None => None,
        };
        Self { kind: self.kind, name: self.name.clone(), active_item }
    }
}

/// The chrome surfaces that take focus by tabbing: none of them.
#[must_use]
pub fn chrome_tab_order(nodes: &[ChromeNode]) -> (order: Vec<&ChromeNode>)
    ensures
        order@ == Seq::<&ChromeNode>::empty(),
{
    let mut order: Vec<&ChromeNode> = Vec::new();
    let mut i: usize = 0;
    while i < nodes.len()
        invariant
            0 <= i <= nodes.len(),
            order@ == Seq::<&ChromeNode>::empty(),
        decreases nodes.len() - i,
    {
        if nodes[i].is_tab_stop() {
            order.push(&nodes[i]);
        }
        i = i + 1;
    }
    order
}

/// The role that each kind of scene node is read as; an unknown kind has none.
pub proof fn scene_kinds_have_their_role(kind: SceneKind)
    ensures
        mapped_role(kind) is None <==> kind == SceneKind::Unknown,
        mapped_role(kind) == Some(A11yRole::Group) <==> kind == SceneKind::Row || kind
            == SceneKind::Column || kind == SceneKind::Block,
        mapped_role(kind) == Some(A11yRole::Text) <==> kind == SceneKind::Text,
        mapped_role(kind) == Some(A11yRole::Image) <==> kind == SceneKind::Image,
        mapped_role(kind) == Some(A11yRole::Code) <==> kind == SceneKind::CodeBlock,
        mapped_role(kind) == Some(A11yRole::Table) <==> kind == SceneKind::Table,
        mapped_role(kind) == Some(A11yRole::List) <==> kind == SceneKind::List,
        mapped_role(kind) == Some(A11yRole::Separator) <==> kind == SceneKind::Rule,
{
}

/// A row holds the cells from its first column on, one width of them, or as many
/// as the grid still has.
pub proof fn rows_are_cut_by_the_width(cells: Seq<Cell>, width: int, row: int, j: int)
    requires
        width >= 1,
        row >= 0,
    ensures
        ({
            let left = cells.len() - row * width;
            let r = row_cells(cells, width, row);
            &&& r.len() == (if left <= 0 {
                0
            } else if left < width {
                left
            } else {
                width
            })
            &&& 0 <= j < r.len() ==> r[j] == cells[row * width + j]
        }),
{
    assert(row * width >= 0) by (nonlinear_arith)
        requires
            width >= 1,
            row >= 0,
    ;
}

/// The text of a row is that of its cells in order, each with its combining
/// characters; the trailing half of a wide character adds nothing, and spaces at
/// the end are left off.
pub proof fn row_texts_join_their_cells(cells: Seq<Cell>, cell: Cell, snapshot: Snapshot, row: int)
    ensures
        cell_text(Seq::empty()) == Seq::<char>::empty(),
        cell_text(cells.push(cell)) == (if cell.spacer {
            cell_text(cells)
        } else {
            cell_text(cells) + seq![cell.glyph] + cell.zerowidth@
        }),
        ({
            let all = cell_text(row_cells(snapshot.cells@, snapshot.width as int, row));
            let shown = row_text(snapshot, row);
            &&& shown.len() <= all.len() && shown == all.take(shown.len() as int)
            &&& shown.len() > 0 ==> !text::is_space(shown.last())
            &&& forall|i: int| shown.len() <= i < all.len() ==> text::is_space(#[trigger] all[i])
        }),
{
    assert(cells.push(cell).drop_last() =~= cells);
    text::trimming_drops_trailing_spaces(
        cell_text(row_cells(snapshot.cells@, snapshot.width as int, row)),
    );
}

/// The lines of a terminal are its rows that show something, from the top down,
/// each with its row number.
pub proof fn lines_are_the_filled_rows(snapshot: Snapshot, n: int)
    requires
        n >= 0,
    ensures
        lines_in(snapshot, 0) == Seq::<Line>::empty(),
        row_text(snapshot, n).len() == 0 ==> lines_in(snapshot, n + 1) == lines_in(snapshot, n),
        row_text(snapshot, n).len() > 0 ==> lines_in(snapshot, n + 1) == lines_in(snapshot, n).push(
            Line { row: n, text: row_text(snapshot, n) },
        ),
        lines_of(snapshot) == (if snapshot.width == 0 {
            Seq::empty()
        } else {
            lines_in(snapshot, snapshot.height as int)
        }),
{
}

/// A name or a state is refused when it has more than 256 characters.
pub proof fn long_names_are_refused(name: Seq<char>)
    ensures
        name_fault(name) is None <==> name.len() <= 256,
        state_fault(None) is None,
        state_fault(Some(name)) is None <==> name.len() <= 256,
{
}

/// A declared purpose has a role when it is `button` or `input`.
pub proof fn purposes_have_their_role(purpose: Seq<char>)
    ensures
        declared_role(purpose) == Some(A11yRole::Button) <==> purpose == "button"@,
        declared_role(purpose) == Some(A11yRole::Input) <==> purpose == "input"@,
        declared_role(purpose) is None <==> purpose != "button"@ && purpose != "input"@,
{
    reveal_strlit("button");
    reveal_strlit("input");
    assert("button"@.len() == 6 && "input"@.len() == 5);
}

} // verus!
