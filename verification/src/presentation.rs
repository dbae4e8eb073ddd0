//! Per-leaf display modes and the workspace commands that change them.

use crate::geometry::Rect;
use crate::layout::{LayoutNode, OverlayTier};
use crate::panel_command;
use crate::provider;
use crate::text;
use crate::tree;
use crate::tree::Tree;
use crate::tree_laws;
use crate::view::{LeafView, ViewId};
use vstd::prelude::*;
use vstd::string::*;

verus! {

/// Requested per-leaf display mode on a workspace view.
#[derive(Debug, Clone, Copy, PartialEq, Eq, Structural, Hash, PartialOrd, Ord)]
pub enum PresentationMode {
    /// Normal tiled leaf: participates in the layout solver directly.
    Tiled,
    /// Floating leaf painted above the base.
    Floating,
    /// Full-bleed base leaf.
    Fullscreen,
    /// Floating leaf that may be hidden.
    Scratchpad,
}

impl Default for PresentationMode {
    fn default() -> (mode: Self)
        ensures
            mode == PresentationMode::Tiled,
    {
        Self::Tiled
    }
}

impl PresentationMode {
    /// The canonical lowercase name.
    pub open spec fn spelled(self) -> Seq<char> {
        match self {
            PresentationMode::Tiled => "tiled"@,
            PresentationMode::Floating => "floating"@,
            PresentationMode::Fullscreen => "fullscreen"@,
            PresentationMode::Scratchpad => "scratchpad"@,
        }
    }

    /// The mode that a text names; there are no aliases.
    pub open spec fn named(s: Seq<char>) -> Option<PresentationMode> {
        if s == "tiled"@ {
            Some(PresentationMode::Tiled)
        } else if s == "floating"@ {
            Some(PresentationMode::Floating)
        } else if s == "fullscreen"@ {
            Some(PresentationMode::Fullscreen)
        } else if s == "scratchpad"@ {
            Some(PresentationMode::Scratchpad)
        } else {
            None
        }
    }

    /// Canonical lowercase name.
    #[must_use]
    pub fn as_str(self) -> (s: &'static str)
        ensures
            s@ == self.spelled(),
    {
        match self {
            Self::Tiled => "tiled",
            Self::Floating => "floating",
            Self::Fullscreen => "fullscreen",
            Self::Scratchpad => "scratchpad",
        }
    }

    /// Spells the mode for messages.
    #[must_use]
    pub fn text(self) -> (out: String)
        ensures
            out@ == self.spelled(),
    {
        self.as_str().to_owned()
    }

    /// Parses a canonical name.
    #[must_use]
    pub fn parse(s: &str) -> (mode: Option<Self>)
        ensures
            mode == PresentationMode::named(s@),
    {
        if text::same_text(s, "tiled") {
            Some(Self::Tiled)
        } else if text::same_text(s, "floating") {
            Some(Self::Floating)
        } else if text::same_text(s, "fullscreen") {
            Some(Self::Fullscreen)
        } else if text::same_text(s, "scratchpad") {
            Some(Self::Scratchpad)
        } else {
            None
        }
    }

    /// The rule for every mode change: each pair is allowed, a mode to itself
    /// included.
    pub open spec fn may_become(self, to: PresentationMode) -> bool {
        true
    }

    /// Whether the transition `from -> to` is allowed.
    #[must_use]
    pub fn can_transition(_from: Self, _to: Self) -> (allowed: bool)
        ensures
            allowed == _from.may_become(_to),
    {
        true
    }

    /// The tier of a mode that floats; base content has none.
    pub open spec fn tier(self) -> Option<OverlayTier> {
        match self {
            PresentationMode::Tiled | PresentationMode::Fullscreen => None,
            PresentationMode::Floating | PresentationMode::Scratchpad => Some(OverlayTier::Float),
        }
    }

    /// Overlay paint tier of an overlay-like mode.
    #[must_use]
    pub fn overlay_tier(self) -> (tier: Option<OverlayTier>)
        ensures
            tier == self.tier(),
    {
        match self {
            Self::Tiled | Self::Fullscreen => None,
            Self::Floating | Self::Scratchpad => Some(OverlayTier::Float),
        }
    }

    /// True for the tiled mode.
    #[must_use]
    pub fn is_tiled(self) -> (yes: bool)
        ensures
            yes == (self == PresentationMode::Tiled),
    {
        matches!(self, Self::Tiled)
    }

    /// Requests a mode change of a leaf if the rule allows it.
    pub fn request_transition(leaf: &mut LeafView, mode: Self) -> (changed: bool)
        ensures
            changed == old(leaf).mode().may_become(mode),
            *final(leaf) == if changed {
                old(leaf).displayed(mode)
            } else {
                *old(leaf)
            },
    {
        if !Self::can_transition(leaf.presentation(), mode) {
            return false;
        }
        leaf.set_presentation(mode);
        true
    }
}

/// Parsing the name of a mode gives the mode back, and only that name does.
pub proof fn mode_names_round_trip(mode: PresentationMode, s: Seq<char>)
    ensures
        PresentationMode::named(mode.spelled()) == Some(mode),
        PresentationMode::named(s) == Some(mode) ==> s == mode.spelled(),
{
    reveal_strlit("tiled");
    reveal_strlit("floating");
    reveal_strlit("fullscreen");
    reveal_strlit("scratchpad");
    assert("tiled"@.len() == 5 && "floating"@.len() == 8 && "fullscreen"@.len() == 10
        && "scratchpad"@.len() == 10);
    assert("fullscreen"@[0] != "scratchpad"@[0]);
}

/// Command that floats a leaf.
pub const PRESENTATION_CMD_FLOATING: &'static str = "bitty.workspace:presentation-floating";

/// Command that makes a leaf full-bleed.
pub const PRESENTATION_CMD_FULLSCREEN: &'static str = "bitty.workspace:presentation-fullscreen";

/// Command that sends a leaf to the scratchpad.
pub const PRESENTATION_CMD_SCRATCHPAD: &'static str = "bitty.workspace:presentation-scratchpad";

/// Command that tiles a leaf.
pub const PRESENTATION_CMD_TILED: &'static str = "bitty.workspace:presentation-tiled";

/// Failure of a presentation command.
#[derive(Debug, Clone, PartialEq, Eq)]
pub enum PresentationCommandError {
    /// Not one of the presentation commands.
    UnknownCommand(String),
    /// The mode change is not allowed.
    Rejected { from: PresentationMode, to: PresentationMode },
    /// No leaf carries the id.
    LeafNotFound(ViewId),
}

impl PresentationCommandError {
    /// The message of the error.
    pub open spec fn spelled(self) -> Seq<char> {
        match self {
            PresentationCommandError::UnknownCommand(cmd) => "unknown presentation command: "@
                + cmd@,
            PresentationCommandError::Rejected { from, to } =>
                "presentation transition rejected: "@ + from.spelled() + " -> "@ + to.spelled(),
            PresentationCommandError::LeafNotFound(id) => "presentation target not found: "@
                + id.spelled(),
        }
    }

    /// Spells the error.
    #[must_use]
    pub fn text(&self) -> (out: String)
        ensures
            out@ == self.spelled(),
    {
        match self {
            Self::UnknownCommand(cmd) => text::joined(
                "unknown presentation command: ",
                cmd.as_str(),
            ),
            Self::Rejected { from, to } => {
                let mut out = text::joined3(
                    "presentation transition rejected: ",
                    from.as_str(),
                    " -> ",
                );
                out.append(to.as_str());
                out
            },
            Self::LeafNotFound(id) => text::joined(
                "presentation target not found: ",
                id.text().as_str(),
            ),
        }
    }
}

/// The command that carries a mode.
pub open spec fn command_of(mode: PresentationMode) -> Seq<char> {
    match mode {
        PresentationMode::Tiled => PRESENTATION_CMD_TILED@,
        PresentationMode::Floating => PRESENTATION_CMD_FLOATING@,
        PresentationMode::Fullscreen => PRESENTATION_CMD_FULLSCREEN@,
        PresentationMode::Scratchpad => PRESENTATION_CMD_SCRATCHPAD@,
    }
}

/// The mode that a command asks for.
pub open spec fn mode_of(command: Seq<char>) -> Option<PresentationMode> {
    if command == PRESENTATION_CMD_TILED@ {
        Some(PresentationMode::Tiled)
    } else if command == PRESENTATION_CMD_FLOATING@ {
        Some(PresentationMode::Floating)
    } else if command == PRESENTATION_CMD_FULLSCREEN@ {
        Some(PresentationMode::Fullscreen)
    } else if command == PRESENTATION_CMD_SCRATCHPAD@ {
        Some(PresentationMode::Scratchpad)
    } else {
        None
    }
}

/// The workspace command of a mode.
#[must_use]
pub fn presentation_command_for_mode(mode: PresentationMode) -> (command: &'static str)
    ensures
        command@ == command_of(mode),
{
    match mode {
        PresentationMode::Tiled => PRESENTATION_CMD_TILED,
        PresentationMode::Floating => PRESENTATION_CMD_FLOATING,
        PresentationMode::Fullscreen => PRESENTATION_CMD_FULLSCREEN,
        PresentationMode::Scratchpad => PRESENTATION_CMD_SCRATCHPAD,
    }
}

/// The mode that a workspace command asks for.
#[must_use]
pub fn presentation_mode_for_command(command: &str) -> (mode: Option<PresentationMode>)
    ensures
        mode == mode_of(command@),
{
    if text::same_text(command, PRESENTATION_CMD_TILED) {
        Some(PresentationMode::Tiled)
    } else if text::same_text(command, PRESENTATION_CMD_FLOATING) {
        Some(PresentationMode::Floating)
    } else if text::same_text(command, PRESENTATION_CMD_FULLSCREEN) {
        Some(PresentationMode::Fullscreen)
    } else if text::same_text(command, PRESENTATION_CMD_SCRATCHPAD) {
        Some(PresentationMode::Scratchpad)
    } else {
        None
    }
}

/// The command of a mode asks for that mode, and it is a qualified command
/// that a command registry takes.
pub proof fn commands_carry_their_mode(mode: PresentationMode)
    ensures
        mode_of(command_of(mode)) == Some(mode),
        panel_command::command_fault(command_of(mode)) is None,
{
    reveal_strlit("bitty.workspace:presentation-tiled");
    reveal_strlit("bitty.workspace:presentation-floating");
    reveal_strlit("bitty.workspace:presentation-fullscreen");
    reveal_strlit("bitty.workspace:presentation-scratchpad");
    reveal_strlit("bitty");
    reveal_strlit("workspace");
    assert(PRESENTATION_CMD_TILED@.len() == 34);
    assert(PRESENTATION_CMD_FLOATING@.len() == 37);
    assert(PRESENTATION_CMD_FULLSCREEN@.len() == 39);
    assert(PRESENTATION_CMD_SCRATCHPAD@.len() == 39);
    assert(PRESENTATION_CMD_FULLSCREEN@[29] != PRESENTATION_CMD_SCRATCHPAD@[29]);
    let s = command_of(mode);
    let a = "bitty"@;
    let b = "workspace"@;
    let c = s.skip(16);
    assert(s =~= a + seq!['.'] + b + seq![':'] + c);
    assert(provider::is_segment(a));
    assert(provider::is_segment(b));
    assert(panel_command::is_command_name(c));
    panel_command::the_grammar_makes_commands(a, b, c);
}

/// Applies a presentation command to the first leaf with the id. An unknown
/// command and a missing leaf leave the tree untouched.
pub fn apply_presentation_command(
    tree: &mut LayoutNode,
    command: &str,
    target: ViewId,
) -> (r: Result<PresentationMode, PresentationCommandError>)
    ensures
        match r {
            Ok(mode) => mode_of(command@) == Some(mode) && (tree::first_view(
                old(tree).tree().leaves(),
                target,
            ) matches Some(v) && v.mode().may_become(mode) && final(tree).tree() == old(tree).tree().put(target, v.displayed(mode))),
            Err(PresentationCommandError::UnknownCommand(c)) => mode_of(command@) is None && c@
                == command@ && final(tree).tree() == old(tree).tree(),
            Err(PresentationCommandError::LeafNotFound(id)) => mode_of(command@) is Some && id
                == target && tree::first_view(old(tree).tree().leaves(), target) is None && final(tree).tree() == old(tree).tree(),
            Err(PresentationCommandError::Rejected { from, to }) => mode_of(command@) == Some(to)
                && (tree::first_view(old(tree).tree().leaves(), target) matches Some(v) && from
                == v.mode() && !from.may_become(to)),
        },
{
    let mode = match presentation_mode_for_command(command) {
        Some(m) => m,
        None => return Err(PresentationCommandError::UnknownCommand(command.to_owned())),
    };
    match tree.find_leaf_mut(target) {
        None => Err(PresentationCommandError::LeafNotFound(target)),
        Some(leaf) => {
            let from = leaf.presentation();
            if !PresentationMode::can_transition(from, mode) {
                return Err(PresentationCommandError::Rejected { from, to: mode });
            }
            leaf.set_presentation(mode);
            Ok(mode)
        },
    }
}

/// Changing the mode of a leaf moves no allocation.
pub proof fn modes_move_nothing(
    t: Tree,
    target: ViewId,
    mode: PresentationMode,
    container: Rect,
    bounds: Rect,
    gap_in: u16,
)
    ensures
        tree::first_view(t.leaves(), target) matches Some(v) ==> t.put(
            target,
            v.displayed(mode),
        ).allocate(container, bounds, gap_in) == t.allocate(container, bounds, gap_in),
{
    if let Some(v) = tree::first_view(t.leaves(), target) {
        broadcast use LeafView::parts_of;

        tree_laws::first_position_is_first(t.leaves(), target);
        tree_laws::allocation_ignores_leaf_state(
            t,
            target,
            v.displayed(mode),
            container,
            bounds,
            gap_in,
        );
    }
}

/// Floating views and those of the scratchpad lie in the floating tier; tiled and
/// fullscreen ones in none. Every mode may follow every other.
pub proof fn modes_choose_their_tier(mode: PresentationMode, to: PresentationMode)
    ensures
        mode.tier() == Some(OverlayTier::Float) <==> mode == PresentationMode::Floating || mode
            == PresentationMode::Scratchpad,
        mode.tier() is None <==> mode == PresentationMode::Tiled || mode
            == PresentationMode::Fullscreen,
        mode.may_become(to),
{
}

/// The words that name a display mode.
pub proof fn modes_are_named(s: Seq<char>)
    ensures
        PresentationMode::named(s) == Some(PresentationMode::Tiled) <==> s == "tiled"@,
        PresentationMode::named(s) == Some(PresentationMode::Floating) <==> s == "floating"@,
        PresentationMode::named(s) == Some(PresentationMode::Fullscreen) <==> s == "fullscreen"@,
        PresentationMode::named(s) == Some(PresentationMode::Scratchpad) <==> s == "scratchpad"@,
{
    mode_names_round_trip(PresentationMode::Tiled, s);
    mode_names_round_trip(PresentationMode::Floating, s);
    mode_names_round_trip(PresentationMode::Fullscreen, s);
    mode_names_round_trip(PresentationMode::Scratchpad, s);
}

} // verus!
