//! Scripting surface of panels and workspaces: command, query and event names,
//! and the capabilities that commands need.

use crate::panel_command;
use crate::panel_command::QualifiedCommand;
use crate::provider;
use crate::text;
use vstd::prelude::*;
use vstd::string::*;

verus! {

/// Version of the surface.
#[derive(Debug, Clone, Copy, PartialEq, Eq, Structural, Hash)]
pub enum PanelApiVersion {
    /// The only version.
    V1,
}

impl PanelApiVersion {
    /// The name of the version.
    pub open spec fn spelled(self) -> Seq<char> {
        "v1"@
    }

    /// Canonical version string.
    #[must_use]
    pub fn as_str(self) -> (s: &'static str)
        ensures
            s@ == self.spelled(),
    {
        match self {
            Self::V1 => "v1",
        }
    }

    /// Spells the version for messages.
    #[must_use]
    pub fn text(self) -> (out: String)
        ensures
            out@ == self.spelled(),
    {
        self.as_str().to_owned()
    }
}

/// Capability for one family of changes.
#[derive(Debug, Clone, Copy, PartialEq, Eq, Structural, Hash)]
pub enum LuaCapability {
    /// Move panels.
    MovePanel,
    /// Resize panels.
    ResizePanel,
    /// Float panels.
    FloatPanel,
    /// Switch, open and close workspaces.
    SwitchWorkspace,
}

impl LuaCapability {
    /// The name of the capability.
    pub open spec fn spelled(self) -> Seq<char> {
        match self {
            LuaCapability::MovePanel => "move"@,
            LuaCapability::ResizePanel => "resize"@,
            LuaCapability::FloatPanel => "float"@,
            LuaCapability::SwitchWorkspace => "workspace"@,
        }
    }

    /// Canonical name.
    #[must_use]
    pub fn as_str(self) -> (s: &'static str)
        ensures
            s@ == self.spelled(),
    {
        match self {
            Self::MovePanel => "move",
            Self::ResizePanel => "resize",
            Self::FloatPanel => "float",
            Self::SwitchWorkspace => "workspace",
        }
    }

    /// Spells the capability for messages.
    #[must_use]
    pub fn text(self) -> (out: String)
        ensures
            out@ == self.spelled(),
    {
        self.as_str().to_owned()
    }
}

/// What a name operates on.
#[derive(Debug, Clone, Copy, PartialEq, Eq, Structural, Hash)]
pub enum ApiScope {
    /// One panel.
    Panel,
    /// One workspace.
    Workspace,
}

impl ApiScope {
    /// The name of the scope.
    pub open spec fn spelled(self) -> Seq<char> {
        match self {
            ApiScope::Panel => "panel"@,
            ApiScope::Workspace => "workspace"@,
        }
    }

    /// Canonical name.
    #[must_use]
    pub fn as_str(self) -> (s: &'static str)
        ensures
            s@ == self.spelled(),
    {
        match self {
            Self::Panel => "panel",
            Self::Workspace => "workspace",
        }
    }

    /// Spells the scope for messages.
    #[must_use]
    pub fn text(self) -> (out: String)
        ensures
            out@ == self.spelled(),
    {
        self.as_str().to_owned()
    }
}

/// One command with the capability it needs.
#[derive(Debug, Clone, Copy, PartialEq, Eq, Hash)]
pub struct PanelLuaCommand {
    /// The `owner.name:command` spelling.
    pub spelling: &'static str,
    /// The capability that the call needs.
    pub capability: LuaCapability,
    /// What the call operates on.
    pub scope: ApiScope,
}

/// The command at a position of the table.
pub open spec fn command_row(i: int) -> (Seq<char>, LuaCapability, ApiScope) {
    if i == 0 {
        ("bitty.panel:move"@, LuaCapability::MovePanel, ApiScope::Panel)
    } else if i == 1 {
        ("bitty.panel:resize"@, LuaCapability::ResizePanel, ApiScope::Panel)
    } else if i == 2 {
        ("bitty.panel:float-toggle"@, LuaCapability::FloatPanel, ApiScope::Panel)
    } else if i == 3 {
        ("bitty.workspace:switch"@, LuaCapability::SwitchWorkspace, ApiScope::Workspace)
    } else if i == 4 {
        ("bitty.workspace:move-panel-to"@, LuaCapability::MovePanel, ApiScope::Workspace)
    } else {
        ("bitty.workspace:close"@, LuaCapability::SwitchWorkspace, ApiScope::Workspace)
    }
}

impl PanelLuaCommand {
    /// The row that the command stands for.
    pub open spec fn row(self) -> (Seq<char>, LuaCapability, ApiScope) {
        (self.spelling@, self.capability, self.scope)
    }
}

/// The command table.
#[must_use]
pub fn panel_lua_commands() -> (table: [PanelLuaCommand; 6])
    ensures
        forall|i: int| 0 <= i < 6 ==> (#[trigger] table@[i]).row() == command_row(i),
{
    [
        PanelLuaCommand {
            spelling: "bitty.panel:move",
            capability: LuaCapability::MovePanel,
            scope: ApiScope::Panel,
        },
        PanelLuaCommand {
            spelling: "bitty.panel:resize",
            capability: LuaCapability::ResizePanel,
            scope: ApiScope::Panel,
        },
        PanelLuaCommand {
            spelling: "bitty.panel:float-toggle",
            capability: LuaCapability::FloatPanel,
            scope: ApiScope::Panel,
        },
        PanelLuaCommand {
            spelling: "bitty.workspace:switch",
            capability: LuaCapability::SwitchWorkspace,
            scope: ApiScope::Workspace,
        },
        PanelLuaCommand {
            spelling: "bitty.workspace:move-panel-to",
            capability: LuaCapability::MovePanel,
            scope: ApiScope::Workspace,
        },
        PanelLuaCommand {
            spelling: "bitty.workspace:close",
            capability: LuaCapability::SwitchWorkspace,
            scope: ApiScope::Workspace,
        },
    ]
}

/// One query name.
#[derive(Debug, Clone, Copy, PartialEq, Eq, Hash)]
pub struct PanelLuaQuery {
    /// The name.
    pub name: &'static str,
    /// What the query reads.
    pub scope: ApiScope,
}

/// The query table.
#[must_use]
pub fn panel_lua_queries() -> (table: [PanelLuaQuery; 3])
    ensures
        table@[0].name@ == "list-panels"@ && table@[0].scope == ApiScope::Workspace,
        table@[1].name@ == "active-panel"@ && table@[1].scope == ApiScope::Workspace,
        table@[2].name@ == "panel-geometry"@ && table@[2].scope == ApiScope::Panel,
{
    [
        PanelLuaQuery { name: "list-panels", scope: ApiScope::Workspace },
        PanelLuaQuery { name: "active-panel", scope: ApiScope::Workspace },
        PanelLuaQuery { name: "panel-geometry", scope: ApiScope::Panel },
    ]
}

/// One event name.
#[derive(Debug, Clone, Copy, PartialEq, Eq, Hash)]
pub struct PanelLuaEvent {
    /// The name.
    pub name: &'static str,
    /// What the event reports.
    pub scope: ApiScope,
}

/// The event table.
#[must_use]
pub fn panel_lua_events() -> (table: [PanelLuaEvent; 4])
    ensures
        table@[0].name@ == "panel-opened"@ && table@[0].scope == ApiScope::Panel,
        table@[1].name@ == "panel-closed"@ && table@[1].scope == ApiScope::Panel,
        table@[2].name@ == "panel-moved"@ && table@[2].scope == ApiScope::Panel,
        table@[3].name@ == "workspace-switched"@ && table@[3].scope == ApiScope::Workspace,
{
    [
        PanelLuaEvent { name: "panel-opened", scope: ApiScope::Panel },
        PanelLuaEvent { name: "panel-closed", scope: ApiScope::Panel },
        PanelLuaEvent { name: "panel-moved", scope: ApiScope::Panel },
        PanelLuaEvent { name: "workspace-switched", scope: ApiScope::Workspace },
    ]
}

/// Failure of the scripting surface.
#[derive(Debug, Clone, PartialEq, Eq)]
pub enum LuaApiError {
    /// A spelling is malformed.
    BadSpelling { spelling: String },
    /// A spelling stands in the table twice.
    DuplicateSpelling { spelling: String },
    /// The capability is not granted.
    CapabilityDenied { spelling: String, capability: LuaCapability },
    /// No command has the spelling.
    UnknownSpelling { spelling: String },
}

impl LuaApiError {
    /// The message of the error.
    pub open spec fn spelled(self) -> Seq<char> {
        match self {
            LuaApiError::BadSpelling { spelling } => "bad lua spelling: "@ + spelling@,
            LuaApiError::DuplicateSpelling { spelling } => "duplicate lua spelling: "@ + spelling@,
            LuaApiError::CapabilityDenied { spelling, capability } => "capability '"@
                + capability.spelled() + "' denied for '"@ + spelling@ + "'"@,
            LuaApiError::UnknownSpelling { spelling } => "unknown lua spelling: "@ + spelling@,
        }
    }

    /// Spells the error.
    #[must_use]
    pub fn text(&self) -> (out: String)
        ensures
            out@ == self.spelled(),
    {
        match self {
            Self::BadSpelling { spelling } => text::joined(
                "bad lua spelling: ",
                spelling.as_str(),
            ),
            Self::DuplicateSpelling { spelling } => text::joined(
                "duplicate lua spelling: ",
                spelling.as_str(),
            ),
            Self::CapabilityDenied { spelling, capability } => {
                let mut out = text::joined3("capability '", capability.as_str(), "' denied for '");
                out.append(spelling.as_str());
                out.append("'");
                out
            },
            Self::UnknownSpelling { spelling } => text::joined(
                "unknown lua spelling: ",
                spelling.as_str(),
            ),
        }
    }
}

/// Every spelling of the table is a qualified command, and no two are equal.
pub proof fn table_is_sound(i: int, j: int)
    requires
        0 <= i < 6,
        0 <= j < 6,
    ensures
        panel_command::command_fault(command_row(i).0) is None,
        i != j ==> command_row(i).0 != command_row(j).0,
{
    reveal_strlit("bitty.panel:move");
    reveal_strlit("bitty.panel:resize");
    reveal_strlit("bitty.panel:float-toggle");
    reveal_strlit("bitty.workspace:switch");
    reveal_strlit("bitty.workspace:move-panel-to");
    reveal_strlit("bitty.workspace:close");
    reveal_strlit("bitty");
    reveal_strlit("panel");
    reveal_strlit("workspace");
    assert("bitty.panel:move"@.len() == 16);
    assert("bitty.panel:resize"@.len() == 18);
    assert("bitty.panel:float-toggle"@.len() == 24);
    assert("bitty.workspace:switch"@.len() == 22);
    assert("bitty.workspace:move-panel-to"@.len() == 29);
    assert("bitty.workspace:close"@.len() == 21);
    let s = command_row(i).0;
    let a = "bitty"@;
    let b = if i < 3 {
        "panel"@
    } else {
        "workspace"@
    };
    let c = if i < 3 {
        s.skip(12)
    } else {
        s.skip(16)
    };
    assert(s =~= a + seq!['.'] + b + seq![':'] + c);
    assert(provider::is_segment(a));
    assert(provider::is_segment(b));
    assert(panel_command::is_command_name(c));
    panel_command::the_grammar_makes_commands(a, b, c);
}

/// Checks the command table: every spelling is well-formed and none repeats.
/// The table passes.
pub fn validate_spellings() -> (r: Result<(), LuaApiError>)
    ensures
        r is Ok,
{
    let table = panel_lua_commands();
    let mut i: usize = 0;
    while i < 6
        invariant
            forall|k: int| 0 <= k < 6 ==> (#[trigger] table@[k]).row() == command_row(k),
        decreases 6 - i,
    {
        let spelling: &'static str = table[i].spelling;
        proof {
            table_is_sound(i as int, i as int);
            assert(table@[i as int].row() == command_row(i as int));
        }
        if QualifiedCommand::parse(spelling).is_err() {
            return Err(LuaApiError::BadSpelling { spelling: spelling.to_owned() });
        }
        let mut j: usize = 0;
        while j < i
            invariant
                i < 6,
                spelling@ == command_row(i as int).0,
                forall|k: int| 0 <= k < 6 ==> (#[trigger] table@[k]).row() == command_row(k),
            decreases i - j,
        {
            proof {
                table_is_sound(i as int, j as int);
                assert(table@[j as int].row() == command_row(j as int));
            }
            if text::same_text(table[j].spelling, spelling) {
                return Err(LuaApiError::DuplicateSpelling { spelling: spelling.to_owned() });
            }
            j = j + 1;
        }
        i = i + 1;
    }
    Ok(())
}

/// Some command has the spelling.
pub open spec fn is_listed(spelling: Seq<char>) -> bool {
    exists|i: int| 0 <= i < 6 && (#[trigger] command_row(i)).0 == spelling
}

/// Looks up the command with the spelling.
pub fn lookup_command(spelling: &str) -> (r: Result<PanelLuaCommand, LuaApiError>)
    ensures
        match r {
            Ok(c) => c.spelling@ == spelling@ && exists|i: int|
                0 <= i < 6 && c.row() == #[trigger] command_row(i),
            Err(LuaApiError::UnknownSpelling { spelling: s }) => s@ == spelling@ && !is_listed(
                spelling@,
            ),
            Err(_) => false,
        },
{
    let table = panel_lua_commands();
    let mut i: usize = 0;
    while i < 6
        invariant
            i <= 6,
            forall|k: int| 0 <= k < 6 ==> (#[trigger] table@[k]).row() == command_row(k),
            forall|k: int| 0 <= k < i ==> (#[trigger] command_row(k)).0 != spelling@,
        decreases 6 - i,
    {
        assert(table@[i as int].row() == command_row(i as int));
        if text::same_text(table[i].spelling, spelling) {
            return Ok(table[i]);
        }
        i = i + 1;
    }
    Err(LuaApiError::UnknownSpelling { spelling: spelling.to_owned() })
}

/// Capability check over the command table.
#[derive(Debug, PartialEq, Eq)]
pub struct CapabilityGate {
    granted: Vec<LuaCapability>,
}

/// The capabilities without repeats, each where it stood first.
pub open spec fn without_repeats(all: Seq<LuaCapability>) -> Seq<LuaCapability>
    decreases all.len(),
{
    if all.len() == 0 {
        all
    } else if all.drop_last().contains(all.last()) {
        without_repeats(all.drop_last())
    } else {
        without_repeats(all.drop_last()).push(all.last())
    }
}

/// Leaving out repeats keeps every capability, once.
pub proof fn repeats_add_nothing(all: Seq<LuaCapability>)
    ensures
        without_repeats(all).no_duplicates(),
        forall|c: LuaCapability| #[trigger] without_repeats(all).contains(c) == all.contains(c),
    decreases all.len(),
{
    if all.len() > 0 {
        let front = all.drop_last();
        let last = all.last();
        let kept = without_repeats(front);
        repeats_add_nothing(front);
        assert forall|c: LuaCapability| all.contains(c) == (front.contains(c) || c == last) by {
            if all.contains(c) {
                let i = choose|i: int| 0 <= i < all.len() && all[i] == c;
                if i < front.len() {
                    assert(front[i] == c);
                }
            }
            if front.contains(c) {
                let i = choose|i: int| 0 <= i < front.len() && front[i] == c;
                assert(all[i] == c);
            }
            assert(all[all.len() - 1] == last);
        }
        if !front.contains(last) {
            assert forall|c: LuaCapability|
                #[trigger] kept.push(last).contains(c) == (kept.contains(c) || c == last) by {
                if kept.contains(c) {
                    let i = choose|i: int| 0 <= i < kept.len() && kept[i] == c;
                    assert(kept.push(last)[i] == c);
                }
                assert(kept.push(last)[kept.len() as int] == last);
                if kept.push(last).contains(c) {
                    let i = choose|i: int|
                        0 <= i < kept.push(last).len() && kept.push(last)[i] == c;
                    if i < kept.len() {
                        assert(kept[i] == c);
                    }
                }
            }
            assert(!kept.contains(last));
            assert(kept.push(last).no_duplicates());
        }
    }
}

impl CapabilityGate {
    /// The granted capabilities, in the order they were given.
    pub closed spec fn granted(self) -> Seq<LuaCapability> {
        self.granted@
    }

    /// The capability is granted.
    pub open spec fn grants(self, capability: LuaCapability) -> bool {
        self.granted().contains(capability)
    }

    /// Creates a check that grants exactly the given capabilities.
    #[must_use]
    pub fn with_grants(granted: &[LuaCapability]) -> (g: Self)
        ensures
            g.granted() == without_repeats(granted@),
            forall|c: LuaCapability| #[trigger] g.grants(c) == granted@.contains(c),
    {
        let mut unique: Vec<LuaCapability> = Vec::new();
        let mut i: usize = 0;
        assert(granted@.take(0) =~= Seq::<LuaCapability>::empty());
        while i < granted.len()
            invariant
                0 <= i <= granted.len(),
                unique@ == without_repeats(granted@.take(i as int)),
            decreases granted.len() - i,
        {
            let cap = granted[i];
            proof {
                repeats_add_nothing(granted@.take(i as int));
                assert(granted@.take(i + 1).drop_last() =~= granted@.take(i as int));
                assert(granted@.take(i + 1).last() == cap);
            }
            if !holds(&unique, cap) {
                unique.push(cap);
            }
            i = i + 1;
        }
        assert(granted@.take(i as int) =~= granted@);
        proof {
            repeats_add_nothing(granted@);
        }
        Self { granted: unique }
    }

    /// The command with the spelling, when its capability is granted.
    pub fn allows(&self, spelling: &str) -> (r: Result<PanelLuaCommand, LuaApiError>)
        ensures
            match r {
                Ok(c) => c.spelling@ == spelling@ && self.grants(c.capability) && exists|i: int|
                    0 <= i < 6 && c.row() == #[trigger] command_row(i),
                Err(LuaApiError::UnknownSpelling { spelling: s }) => s@ == spelling@ && !is_listed(
                    spelling@,
                ),
                Err(LuaApiError::CapabilityDenied { spelling: s, capability }) => s@ == spelling@
                    && !self.grants(capability) && exists|i: int|
                    0 <= i < 6 && (#[trigger] command_row(i)).0 == spelling@ && command_row(i).1
                        == capability,
                Err(_) => false,
            },
    {
        let cmd = match lookup_command(spelling) {
            Ok(c) => c,
            Err(e) => return Err(e),
        };
        if holds(&self.granted, cmd.capability) {
            Ok(cmd)
        } else {
            Err(
                LuaApiError::CapabilityDenied {
                    spelling: spelling.to_owned(),
                    capability: cmd.capability,
                },
            )
        }
    }
}

impl Default for CapabilityGate {
    fn default() -> (g: Self)
        ensures
            g.granted() == Seq::<LuaCapability>::empty(),
    {
        Self { granted: Vec::new() }
    }
}

impl Clone for CapabilityGate {
    fn clone(&self) -> (g: Self)
        ensures
            g.granted() == self.granted(),
    {
        let granted = self.granted.clone();
        assert(granted@ =~= self.granted@);
        Self { granted }
    }
}

fn holds(list: &Vec<LuaCapability>, cap: LuaCapability) -> (yes: bool)
    ensures
        yes == list@.contains(cap),
{
    let mut i: usize = 0;
    while i < list.len()
        invariant
            0 <= i <= list.len(),
            forall|j: int| 0 <= j < i ==> list@[j] != cap,
        decreases list.len() - i,
    {
        if list[i] == cap {
            return true;
        }
        i = i + 1;
    }
    false
}

/// The commands of the panel scope move, resize and float; those of the workspace
/// scope switch, close and move a panel over. Each needs the capability for what
/// it does.
pub proof fn commands_need_their_capability(i: int)
    requires
        0 <= i < 6,
    ensures
        ({
            let (spelling, capability, scope) = command_row(i);
            &&& scope is Panel ==> text::has_head(spelling, "bitty.panel:"@)
            &&& scope is Workspace ==> text::has_head(spelling, "bitty.workspace:"@)
            &&& capability is ResizePanel <==> spelling == "bitty.panel:resize"@
            &&& capability is FloatPanel <==> spelling == "bitty.panel:float-toggle"@
            &&& capability is MovePanel <==> spelling == "bitty.panel:move"@ || spelling
                == "bitty.workspace:move-panel-to"@
            &&& capability is SwitchWorkspace <==> spelling == "bitty.workspace:switch"@
                || spelling == "bitty.workspace:close"@
        }),
{
    reveal_strlit("bitty.panel:");
    reveal_strlit("bitty.workspace:");
    reveal_strlit("bitty.panel:move");
    reveal_strlit("bitty.panel:resize");
    reveal_strlit("bitty.panel:float-toggle");
    reveal_strlit("bitty.workspace:switch");
    reveal_strlit("bitty.workspace:move-panel-to");
    reveal_strlit("bitty.workspace:close");
    assert("bitty.panel:"@ =~= "bitty.panel:move"@.take(12));
    assert("bitty.panel:"@ =~= "bitty.panel:resize"@.take(12));
    assert("bitty.panel:"@ =~= "bitty.panel:float-toggle"@.take(12));
    assert("bitty.workspace:"@ =~= "bitty.workspace:switch"@.take(16));
    assert("bitty.workspace:"@ =~= "bitty.workspace:move-panel-to"@.take(16));
    assert("bitty.workspace:"@ =~= "bitty.workspace:close"@.take(16));
    assert("bitty.panel:move"@.len() == 16 && "bitty.panel:resize"@.len() == 18);
    assert("bitty.panel:float-toggle"@.len() == 24 && "bitty.workspace:switch"@.len() == 22);
    assert("bitty.workspace:move-panel-to"@.len() == 29 && "bitty.workspace:close"@.len() == 21);
}

/// Granting a capability twice is granting it once, and the grants keep the order
/// in which each was first given.
pub proof fn grants_keep_their_first_order(all: Seq<LuaCapability>, more: LuaCapability)
    ensures
        without_repeats(all.push(more)) == (if all.contains(more) {
            without_repeats(all)
        } else {
            without_repeats(all).push(more)
        }),
{
    assert(all.push(more).drop_last() =~= all);
}

} // verus!
