//! Hidden scratchpad slot of a window: at most one leaf is parked outside the
//! layout tree and comes back beside its former neighbour.

use crate::float32;
use crate::float32::Float32;
use crate::geometry::SplitAxis;
use crate::layout::LayoutNode;
use crate::presentation::PresentationMode;
use crate::text;
use crate::tree;
use crate::tree::Tree;
use crate::tree_laws;
use crate::view::{LeafView, ViewId};
use vstd::prelude::*;
use vstd::string::*;

verus! {

/// Workspace command that toggles the slot.
pub const SCRATCHPAD_CMD_TOGGLE: &'static str = "bitty.workspace:scratchpad-toggle";

/// Failure of a scratchpad step.
#[derive(Debug, Clone, PartialEq, Eq)]
pub enum ScratchpadError {
    /// A leaf is parked already.
    Occupied,
    /// Nothing is parked.
    Vacant,
    /// Hiding needs a target.
    MissingTarget,
    /// No leaf carries the id.
    LeafNotFound(ViewId),
    /// The mode change is not allowed.
    Rejected { from: PresentationMode, to: PresentationMode },
    /// Not the toggle command.
    UnknownCommand(String),
}

impl ScratchpadError {
    /// The message of the error.
    pub open spec fn spelled(self) -> Seq<char> {
        match self {
            ScratchpadError::Occupied => "scratchpad slot already occupied"@,
            ScratchpadError::Vacant => "scratchpad slot is empty"@,
            ScratchpadError::MissingTarget => "scratchpad hide needs a target leaf"@,
            ScratchpadError::LeafNotFound(id) => "scratchpad target not found: "@ + id.spelled(),
            ScratchpadError::Rejected { from, to } => "scratchpad transition rejected: "@
                + from.spelled() + " -> "@ + to.spelled(),
            ScratchpadError::UnknownCommand(cmd) => "unknown scratchpad command: "@ + cmd@,
        }
    }

    /// Spells the error.
    #[must_use]
    pub fn text(&self) -> (out: String)
        ensures
            out@ == self.spelled(),
    {
        match self {
            Self::Occupied => "scratchpad slot already occupied".to_owned(),
            Self::Vacant => "scratchpad slot is empty".to_owned(),
            Self::MissingTarget => "scratchpad hide needs a target leaf".to_owned(),
            Self::LeafNotFound(id) => text::joined(
                "scratchpad target not found: ",
                id.text().as_str(),
            ),
            Self::Rejected { from, to } => {
                let mut out = text::joined3(
                    "scratchpad transition rejected: ",
                    from.as_str(),
                    " -> ",
                );
                out.append(to.as_str());
                out
            },
            Self::UnknownCommand(cmd) => text::joined(
                "unknown scratchpad command: ",
                cmd.as_str(),
            ),
        }
    }
}

/// Parked leaf with the neighbour it returns to and the side it returns on.
#[derive(Debug, Clone, Copy, PartialEq, Eq, Structural)]
pub struct HiddenEntry {
    view: LeafView,
    anchor: Option<ViewId>,
    after: bool,
}

impl HiddenEntry {
    /// The parked leaf.
    pub closed spec fn leaf(self) -> LeafView {
        self.view
    }

    /// The neighbour at the time of hiding.
    pub closed spec fn neighbour(self) -> Option<ViewId> {
        self.anchor
    }

    /// The leaf returns after its neighbour.
    pub closed spec fn follows(self) -> bool {
        self.after
    }

    /// The parked leaf.
    #[must_use]
    pub fn view(&self) -> (v: &LeafView)
        ensures
            *v == self.leaf(),
    {
        &self.view
    }

    /// The neighbour at the time of hiding, if any.
    #[must_use]
    pub fn anchor(&self) -> (id: Option<ViewId>)
        ensures
            id == self.neighbour(),
    {
        self.anchor
    }
}

/// The neighbour of the leaf at `pos`: the following one, else the preceding
/// one.
pub open spec fn neighbour_of(ids: Seq<ViewId>, pos: int) -> Option<ViewId> {
    if pos + 1 < ids.len() {
        Some(ids[pos + 1])
    } else if pos > 0 {
        Some(ids[pos - 1])
    } else {
        None
    }
}

/// The leaf at `pos` comes after its neighbour: there is no following one.
pub open spec fn comes_after(ids: Seq<ViewId>, pos: int) -> bool {
    pos + 1 >= ids.len()
}

/// The tree with `v` docked: alone in an empty tree, beside its neighbour when
/// that is still there, else after the first leaf.
pub open spec fn restored(t: Tree, v: LeafView, neighbour: Option<ViewId>, after: bool) -> Tree {
    if t.leaves().len() == 0 {
        Tree::Leaf(v)
    } else {
        match neighbour {
            Some(a) if t.has(a) => t.beside(
                a,
                v,
                SplitAxis::Horizontal,
                float32::HALF_BITS,
                after,
            ),
            _ => t.beside(
                t.leaves()[0].key(),
                v,
                SplitAxis::Horizontal,
                float32::HALF_BITS,
                true,
            ),
        }
    }
}

/// Hidden slot of a window.
#[derive(Debug, Clone, Copy, PartialEq, Eq, Structural)]
pub struct ScratchpadSlot {
    hidden: Option<HiddenEntry>,
}

impl ScratchpadSlot {
    /// The parked entry.
    pub closed spec fn parked(self) -> Option<HiddenEntry> {
        self.hidden
    }

    /// Creates an empty slot.
    #[must_use]
    pub fn new() -> (s: Self)
        ensures
            s.parked() is None,
    {
        Self { hidden: None }
    }

    /// True when no leaf is parked.
    #[must_use]
    pub fn is_empty(&self) -> (empty: bool)
        ensures
            empty == (self.parked() is None),
    {
        self.hidden.is_none()
    }

    /// The parked leaf, if any.
    #[must_use]
    pub fn peek(&self) -> (v: Option<&LeafView>)
        ensures
            match (v, self.parked()) {
                (Some(v), Some(e)) => *v == e.leaf(),
                (None, None) => true,
                _ => false,
            },
    {
        match &self.hidden {
            Some(h) => Some(&h.view),
            None => None,
        }
    }

    /// Hiding succeeds and takes the tree and the slot to these states.
    pub open spec fn hides(
        before: ScratchpadSlot,
        after: ScratchpadSlot,
        tree: Tree,
        rest: Tree,
        id: ViewId,
    ) -> bool {
        let pos = tree_laws::first_position(tree.leaves(), id);
        &&& before.parked() is None
        &&& tree.has(id)
        &&& rest == tree.pruned(id)
        &&& after.parked() matches Some(e) && e.leaf() == tree.leaves()[pos].displayed(
            PresentationMode::Scratchpad,
        ) && e.neighbour() == neighbour_of(tree.ids(), pos) && e.follows() == comes_after(
            tree.ids(),
            pos,
        )
    }

    /// Why hiding fails.
    pub open spec fn hide_fault(slot: ScratchpadSlot, tree: Tree, id: ViewId) -> Option<
        ScratchpadError,
    > {
        if slot.parked() is Some {
            Some(ScratchpadError::Occupied)
        } else if !tree.has(id) {
            Some(ScratchpadError::LeafNotFound(id))
        } else {
            None
        }
    }

    /// Parks a leaf: takes it out of the tree and shows it as a scratchpad
    /// leaf from now on.
    pub fn stash(&mut self, tree: &mut LayoutNode, id: ViewId) -> (r: Result<(), ScratchpadError>)
        ensures
            match ScratchpadSlot::hide_fault(*old(self), old(tree).tree(), id) {
                Some(fault) => r == Err::<(), ScratchpadError>(fault) && *final(self) == *old(self)
                    && final(tree).tree() == old(tree).tree(),
                None => r is Ok && ScratchpadSlot::hides(
                    *old(self),
                    *final(self),
                    old(tree).tree(),
                    final(tree).tree(),
                    id,
                ),
            },
    {
        if self.hidden.is_some() {
            return Err(ScratchpadError::Occupied);
        }
        let ids = tree.leaf_ids();
        let pos: usize = match position_in(&ids, id, tree) {
            Some(p) => p,
            None => return Err(ScratchpadError::LeafNotFound(id)),
        };
        let (anchor, after): (Option<ViewId>, bool) = if ids.len() - pos > 1 {
            (Some(ids[pos + 1]), false)
        } else if pos > 0 {
            (Some(ids[pos - 1]), true)
        } else {
            (None, true)
        };
        proof {
            tree_laws::first_position_is_first(tree.tree().leaves(), id);
        }
        match tree.remove_leaf(id) {
            None => Err(ScratchpadError::LeafNotFound(id)),
            Some(found) => {
                let mut view: LeafView = found;
                let from = view.presentation();
                if !PresentationMode::request_transition(&mut view, PresentationMode::Scratchpad) {
                    restore_view(tree, view, anchor, after);
                    return Err(
                        ScratchpadError::Rejected { from, to: PresentationMode::Scratchpad },
                    );
                }
                self.hidden = Some(HiddenEntry { view, anchor, after });
                Ok(())
            },
        }
    }

    /// Brings the parked leaf back as a tiled leaf and returns its id.
    pub fn show(&mut self, tree: &mut LayoutNode) -> (r: Result<ViewId, ScratchpadError>)
        ensures
            match old(self).parked() {
                None => r == Err::<ViewId, ScratchpadError>(ScratchpadError::Vacant) && *final(self)
                    == *old(self) && final(tree).tree() == old(tree).tree(),
                Some(e) => r == Ok::<ViewId, ScratchpadError>(e.leaf().key()) && final(self).parked() is None && final(tree).tree() == restored(
                    old(tree).tree(),
                    e.leaf().displayed(PresentationMode::Tiled),
                    e.neighbour(),
                    e.follows(),
                ),
            },
    {
        let entry = match self.hidden {
            Some(e) => e,
            None => return Err(ScratchpadError::Vacant),
        };
        let mut view: LeafView = entry.view;
        let from = view.presentation();
        if !PresentationMode::request_transition(&mut view, PresentationMode::Tiled) {
            return Err(ScratchpadError::Rejected { from, to: PresentationMode::Tiled });
        }
        self.hidden = None;
        let id = entry.view.id();
        restore_view(tree, view, entry.anchor, entry.after);
        Ok(id)
    }

    /// Shows the parked leaf, or hides `target` when none is parked. Returns
    /// the restored id on show and `None` on hide.
    pub fn toggle(&mut self, tree: &mut LayoutNode, target: Option<ViewId>) -> (r: Result<
        Option<ViewId>,
        ScratchpadError,
    >)
        ensures
            ScratchpadSlot::toggles(
                *old(self),
                *final(self),
                old(tree).tree(),
                final(tree).tree(),
                target,
                r,
            ),
    {
        if self.hidden.is_some() {
            return match self.show(tree) {
                Ok(id) => Ok(Some(id)),
                Err(e) => Err(e),
            };
        }
        match target {
            None => Err(ScratchpadError::MissingTarget),
            Some(id) => match self.stash(tree, id) {
                Ok(_) => Ok(None),
                Err(e) => Err(e),
            },
        }
    }

    /// What toggling does to the slot and the tree, and what it reports.
    pub open spec fn toggles(
        before: ScratchpadSlot,
        after: ScratchpadSlot,
        tree: Tree,
        changed: Tree,
        target: Option<ViewId>,
        r: Result<Option<ViewId>, ScratchpadError>,
    ) -> bool {
        match (before.parked(), target) {
            (Some(e), _) => r == Ok::<Option<ViewId>, ScratchpadError>(Some(e.leaf().key()))
                && after.parked() is None && changed == restored(
                tree,
                e.leaf().displayed(PresentationMode::Tiled),
                e.neighbour(),
                e.follows(),
            ),
            (None, None) => r == Err::<Option<ViewId>, ScratchpadError>(
                ScratchpadError::MissingTarget,
            ) && after == before && changed == tree,
            (None, Some(id)) => match ScratchpadSlot::hide_fault(before, tree, id) {
                Some(fault) => r == Err::<Option<ViewId>, ScratchpadError>(fault) && after == before
                    && changed == tree,
                None => r == Ok::<Option<ViewId>, ScratchpadError>(None) && ScratchpadSlot::hides(
                    before,
                    after,
                    tree,
                    changed,
                    id,
                ),
            },
        }
    }
}

impl Default for ScratchpadSlot {
    fn default() -> (s: Self)
        ensures
            s.parked() is None,
    {
        Self::new()
    }
}

fn position_in(ids: &Vec<ViewId>, id: ViewId, tree: &LayoutNode) -> (pos: Option<usize>)
    requires
        ids@ == tree.tree().ids(),
    ensures
        match pos {
            Some(p) => tree.tree().has(id) && p == tree_laws::first_position(
                tree.tree().leaves(),
                id,
            ) && p < ids@.len(),
            None => !tree.tree().has(id),
        },
{
    proof {
        tree_laws::first_position_is_first(tree.tree().leaves(), id);
    }
    let mut i: usize = 0;
    while i < ids.len()
        invariant
            0 <= i <= ids.len(),
            ids@ == tree.tree().ids(),
            forall|j: int| 0 <= j < i ==> (#[trigger] tree.tree().leaves()[j]).key() != id,
            match tree::first_view(tree.tree().leaves(), id) {
                Some(v) => 0 <= tree_laws::first_position(tree.tree().leaves(), id)
                    < tree.tree().leaves().len() && tree.tree().leaves()[tree_laws::first_position(
                    tree.tree().leaves(),
                    id,
                )] == v && v.key() == id && forall|j: int|
                    0 <= j < tree_laws::first_position(tree.tree().leaves(), id) ==> (
                    #[trigger] tree.tree().leaves()[j]).key() != id,
                None => forall|j: int|
                    0 <= j < tree.tree().leaves().len() ==> (
                    #[trigger] tree.tree().leaves()[j]).key() != id,
            },
        decreases ids.len() - i,
    {
        assert(ids@[i as int] == tree.tree().leaves()[i as int].key());
        if ids[i] == id {
            return Some(i);
        }
        i = i + 1;
    }
    None
}

fn restore_view(tree: &mut LayoutNode, view: LeafView, anchor: Option<ViewId>, after: bool)
    ensures
        final(tree).tree() == restored(old(tree).tree(), view, anchor, after),
{
    let ids = tree.leaf_ids();
    if ids.len() == 0 {
        *tree = LayoutNode::leaf(view);
        return;
    }
    let half = Float32::from_bits(float32::HALF_BITS);
    if let Some(a) = anchor {
        if tree.insert_beside(a, &view, SplitAxis::Horizontal, half, after) {
            return;
        }
    }
    assert(ids@[0] == tree.tree().leaves()[0].key());
    let _docked: bool = tree.insert_beside(ids[0], &view, SplitAxis::Horizontal, half, true);
}

/// Applies a workspace command to the slot. Anything but the toggle command
/// is refused and changes nothing.
pub fn apply_scratchpad_toggle(
    slot: &mut ScratchpadSlot,
    tree: &mut LayoutNode,
    command: &str,
    target: Option<ViewId>,
) -> (r: Result<Option<ViewId>, ScratchpadError>)
    ensures
        if command@ == SCRATCHPAD_CMD_TOGGLE@ {
            ScratchpadSlot::toggles(
                *old(slot),
                *final(slot),
                old(tree).tree(),
                final(tree).tree(),
                target,
                r,
            )
        } else {
            (r matches Err(ScratchpadError::UnknownCommand(c)) && c@ == command@) && *final(slot)
                == *old(slot) && final(tree).tree() == old(tree).tree()
        },
{
    if !text::same_text(command, SCRATCHPAD_CMD_TOGGLE) {
        return Err(ScratchpadError::UnknownCommand(command.to_owned()));
    }
    slot.toggle(tree, target)
}

/// Hiding a leaf and showing it again puts it back in its place in depth-first
/// order as a tiled leaf, and keeps every other leaf as it was, when no two
/// leaves share an id.
pub proof fn hide_and_show_keep_the_order(t: Tree, id: ViewId)
    requires
        t.has(id),
        tree_laws::distinct_ids(t),
    ensures
        ({
            let pos = tree_laws::first_position(t.leaves(), id);
            let back = t.leaves()[pos].displayed(PresentationMode::Scratchpad).displayed(
                PresentationMode::Tiled,
            );
            &&& back == t.leaves()[pos].displayed(PresentationMode::Tiled)
            &&& restored(
                t.pruned(id),
                back,
                neighbour_of(t.ids(), pos),
                comes_after(t.ids(), pos),
            ).leaves() == t.leaves().update(pos, back)
        }),
{
    broadcast use LeafView::parts_of;

    let all = t.leaves();
    let pos = tree_laws::first_position(all, id);
    tree_laws::first_position_is_first(all, id);
    tree_laws::pruning_removes_one_leaf(t, id);
    let rest = t.pruned(id);
    let v = all[pos];
    let back = v.displayed(PresentationMode::Scratchpad).displayed(PresentationMode::Tiled);
    let ids = t.ids();
    if all.len() == 1 {
        assert(rest.leaves().len() == 0);
        assert(Tree::Leaf(back).leaves() =~= all.update(pos, back));
    } else {
        let follows = comes_after(ids, pos);
        let at = if follows {
            pos - 1
        } else {
            pos
        };
        let anchor = rest.leaves()[at].key();
        assert(ids[pos] == id);
        assert(neighbour_of(ids, pos) == Some(anchor)) by {
            if !follows {
                assert(ids[pos + 1] == all[pos + 1].key());
                assert(rest.leaves()[pos] == all[pos + 1]);
            } else {
                assert(ids[pos - 1] == all[pos - 1].key());
                assert(rest.leaves()[pos - 1] == all[pos - 1]);
            }
        }
        tree_laws::first_position_is_first(rest.leaves(), anchor);
        assert forall|i: int, j: int| 0 <= i < j < rest.leaves().len() implies (
        #[trigger] rest.leaves()[i]).key() != (#[trigger] rest.leaves()[j]).key() by {
            let a = if i < pos {
                i
            } else {
                i + 1
            };
            let b = if j < pos {
                j
            } else {
                j + 1
            };
            assert(rest.leaves()[i] == all[a] && rest.leaves()[j] == all[b]);
        }
        assert(rest.leaves()[at].key() == anchor);
        let found = tree_laws::first_position(rest.leaves(), anchor);
        assert(found == at) by {
            if found < at {
                assert(rest.leaves()[found].key() != rest.leaves()[at].key());
            } else if at < found {
                assert(rest.leaves()[at].key() != anchor);
            }
        }
        tree_laws::docking_inserts_one_leaf(
            rest,
            anchor,
            back,
            SplitAxis::Horizontal,
            float32::HALF_BITS,
            follows,
        );
        assert(all.remove(pos).insert(pos, back) =~= all.update(pos, back));
    }
}

/// A hidden view remembers the view behind it, which it stood before; the last
/// view remembers the one before it, which it stood after; an only view none.
pub proof fn hidden_views_remember_a_neighbour(ids: Seq<ViewId>, pos: int)
    requires
        0 <= pos < ids.len(),
    ensures
        pos + 1 < ids.len() ==> neighbour_of(ids, pos) == Some(ids[pos + 1]) && !comes_after(
            ids,
            pos,
        ),
        pos + 1 == ids.len() && pos > 0 ==> neighbour_of(ids, pos) == Some(ids[pos - 1])
            && comes_after(ids, pos),
        ids.len() == 1 ==> neighbour_of(ids, pos) is None,
{
}

/// Nothing is hidden while the slot is in use, and nothing that is not there.
pub proof fn hiding_needs_a_free_slot(slot: ScratchpadSlot, tree: Tree, id: ViewId)
    ensures
        slot.parked() is Some ==> ScratchpadSlot::hide_fault(slot, tree, id) == Some(
            ScratchpadError::Occupied,
        ),
        slot.parked() is None && !tree.ids().contains(id) ==> ScratchpadSlot::hide_fault(
            slot,
            tree,
            id,
        ) == Some(ScratchpadError::LeafNotFound(id)),
        slot.parked() is None && tree.ids().contains(id) ==> ScratchpadSlot::hide_fault(
            slot,
            tree,
            id,
        ) is None,
{
    tree_laws::first_position_is_first(tree.leaves(), id);
    if tree.has(id) {
        let k = tree_laws::first_position(tree.leaves(), id);
        assert(tree.ids()[k] == id);
    } else if tree.ids().contains(id) {
        let k = choose|k: int| 0 <= k < tree.ids().len() && tree.ids()[k] == id;
        assert(tree.leaves()[k].key() == id);
    }
}

/// A toggle brings back what is hidden, whatever target it names; with nothing
/// hidden it hides its target, and fails without one.
pub proof fn toggles_show_before_they_hide(
    before: ScratchpadSlot,
    after: ScratchpadSlot,
    tree: Tree,
    changed: Tree,
    target: Option<ViewId>,
    r: Result<Option<ViewId>, ScratchpadError>,
)
    requires
        ScratchpadSlot::toggles(before, after, tree, changed, target, r),
    ensures
        before.parked() matches Some(e) ==> r == Ok::<Option<ViewId>, ScratchpadError>(
            Some(e.leaf().key()),
        ) && after.parked() is None,
        before.parked() is None && target is None ==> r == Err::<Option<ViewId>, ScratchpadError>(
            ScratchpadError::MissingTarget,
        ) && after == before && changed == tree,
        before.parked() is None ==> (r is Ok <==> (target matches Some(id) && tree.has(id))),
        before.parked() is None && r is Ok ==> {
            let pos = tree_laws::first_position(tree.leaves(), target->0);
            let e = after.parked()->0;
            &&& after.parked() is Some && e.leaf().key() == target->0
            &&& e.leaf().mode() == PresentationMode::Scratchpad
            &&& changed.leaves() == tree.leaves().remove(pos)
            &&& pos + 1 < tree.ids().len() ==> e.neighbour() == Some(tree.ids()[pos + 1])
                && !e.follows()
        },
        r is Err ==> after == before && changed == tree,
{
    broadcast use LeafView::parts_of;

    if before.parked() is None && r is Ok {
        tree_laws::pruning_removes_one_leaf(tree, target->0);
        tree_laws::first_position_is_first(tree.leaves(), target->0);
    }
}

} // verus!
