//! Placement of panels on views: an explicit one-to-one binding, and the focus
//! target that input sees.

use crate::panel::PanelId;
use crate::seqs;
use crate::text;
use crate::view::ViewId;
use vstd::prelude::*;

verus! {

/// The ways a panel could stand in a layout.
#[derive(Debug, Clone, Copy, PartialEq, Eq, Structural, Hash)]
pub enum PlacementOption {
    /// The panel is typed content of a view.
    A,
    /// The panel replaces the view as the layout leaf.
    B,
    /// The panel is bound to a view from outside.
    C,
}

/// The direction taken.
pub const PLACEMENT_DIRECTION: PlacementOption = PlacementOption::A;

/// Spelling of the encoding.
pub const TRANSITIONAL_ENCODING: &'static str = "ViewContent::Panel(PanelId)";

/// Placement failure; the bindings are unchanged.
#[derive(Debug, Clone, Copy, PartialEq, Eq, Structural)]
pub enum PlacementError {
    /// The view hosts a panel already.
    ViewOccupied { view: ViewId },
    /// The panel is mounted already.
    PanelAlreadyMounted { panel: PanelId },
    /// The panel is not mounted.
    NotMounted { panel: PanelId },
}

impl PlacementError {
    /// The message of the error.
    pub open spec fn spelled(self) -> Seq<char> {
        match self {
            PlacementError::ViewOccupied { view } => "view "@ + view.spelled()
                + " already hosts a panel"@,
            PlacementError::PanelAlreadyMounted { panel } => "panel "@ + panel.spelled()
                + " is already mounted"@,
            PlacementError::NotMounted { panel } => "panel "@ + panel.spelled()
                + " is not mounted"@,
        }
    }

    /// Spells the error.
    #[must_use]
    pub fn text(&self) -> (out: String)
        ensures
            out@ == self.spelled(),
    {
        match self {
            Self::ViewOccupied { view } => text::joined3(
                "view ",
                view.text().as_str(),
                " already hosts a panel",
            ),
            Self::PanelAlreadyMounted { panel } => text::joined3(
                "panel ",
                panel.text().as_str(),
                " is already mounted",
            ),
            Self::NotMounted { panel } => text::joined3(
                "panel ",
                panel.text().as_str(),
                " is not mounted",
            ),
        }
    }
}

/// One panel on one view.
#[derive(Debug, Clone, Copy, PartialEq, Eq, Structural)]
pub struct Mount {
    /// The mounted panel.
    pub panel: PanelId,
    /// The view it is mounted on.
    pub view: ViewId,
}

/// The condition of holding the panel.
pub open spec fn holds(panel: PanelId) -> spec_fn(Mount) -> bool {
    |m: Mount| m.panel == panel
}

/// The condition of standing on the view.
pub open spec fn stands_on(view: ViewId) -> spec_fn(Mount) -> bool {
    |m: Mount| m.view == view
}

/// The view of a panel.
pub open spec fn view_in(mounts: Seq<Mount>, panel: PanelId) -> Option<ViewId> {
    match seqs::find_where(mounts, holds(panel)) {
        Some(m) => Some(m.view),
        None => None,
    }
}

/// The panel on a view.
pub open spec fn panel_in(mounts: Seq<Mount>, view: ViewId) -> Option<PanelId> {
    match seqs::find_where(mounts, stands_on(view)) {
        Some(m) => Some(m.panel),
        None => None,
    }
}

/// No panel and no view is bound twice.
pub open spec fn one_to_one(mounts: Seq<Mount>) -> bool {
    forall|i: int, j: int|
        0 <= i < j < mounts.len() ==> (#[trigger] mounts[i]).panel != (#[trigger] mounts[j]).panel
            && mounts[i].view != mounts[j].view
}

/// A panel is on a view exactly when the view hosts the panel.
pub proof fn bindings_agree(mounts: Seq<Mount>, panel: PanelId, view: ViewId)
    requires
        one_to_one(mounts),
    ensures
        view_in(mounts, panel) == Some(view) <==> panel_in(mounts, view) == Some(panel),
        view_in(mounts, panel) == Some(view) <==> mounts.contains(Mount { panel, view }),
{
    seqs::first_where_is_first(mounts, holds(panel));
    seqs::first_where_is_first(mounts, stands_on(view));
    let i = seqs::first_where(mounts, holds(panel));
    let j = seqs::first_where(mounts, stands_on(view));
    if view_in(mounts, panel) == Some(view) {
        assert(mounts[i] == Mount { panel, view });
        assert(stands_on(view)(mounts[i]));
        assert(j <= i);
        if j < i {
            assert(mounts[j].view != mounts[i].view);
        }
    }
    if panel_in(mounts, view) == Some(panel) {
        assert(mounts[j] == Mount { panel, view });
        assert(holds(panel)(mounts[j]));
        assert(i <= j);
        if i < j {
            assert(mounts[i].panel != mounts[j].panel);
        }
    }
    if mounts.contains(Mount { panel, view }) {
        let k = choose|k: int| 0 <= k < mounts.len() && mounts[k] == Mount { panel, view };
        assert(holds(panel)(mounts[k]));
        assert(i <= k);
        if i < k {
            assert(mounts[i].panel != mounts[k].panel);
        }
    }
}

/// Binding of panels to views.
#[derive(Debug)]
pub struct Placement {
    mounts: Vec<Mount>,
}

impl View for Placement {
    type V = Seq<Mount>;

    closed spec fn view(&self) -> Seq<Mount> {
        self.mounts@
    }
}

impl Placement {
    /// The bindings are one-to-one.
    pub open spec fn wf(self) -> bool {
        one_to_one(self@)
    }

    /// Creates a placement without bindings.
    #[must_use]
    pub fn new() -> (p: Self)
        ensures
            p.wf(),
            p@ == Seq::<Mount>::empty(),
    {
        Self { mounts: Vec::new() }
    }

    fn panel_position(&self, panel: PanelId) -> (k: usize)
        ensures
            k == seqs::first_where(self@, holds(panel)),
            k <= self@.len(),
    {
        let mut i: usize = 0;
        while i < self.mounts.len()
            invariant
                0 <= i <= self.mounts.len(),
                forall|j: int| 0 <= j < i ==> !holds(panel)(#[trigger] self@[j]),
            decreases self.mounts.len() - i,
        {
            if self.mounts[i].panel == panel {
                proof {
                    seqs::first_where_unique(self@, holds(panel), i as int);
                }
                return i;
            }
            i = i + 1;
        }
        proof {
            seqs::first_where_unique(self@, holds(panel), i as int);
        }
        i
    }

    fn view_position(&self, view: ViewId) -> (k: usize)
        ensures
            k == seqs::first_where(self@, stands_on(view)),
            k <= self@.len(),
    {
        let mut i: usize = 0;
        while i < self.mounts.len()
            invariant
                0 <= i <= self.mounts.len(),
                forall|j: int| 0 <= j < i ==> !stands_on(view)(#[trigger] self@[j]),
            decreases self.mounts.len() - i,
        {
            if self.mounts[i].view == view {
                proof {
                    seqs::first_where_unique(self@, stands_on(view), i as int);
                }
                return i;
            }
            i = i + 1;
        }
        proof {
            seqs::first_where_unique(self@, stands_on(view), i as int);
        }
        i
    }

    /// Mounts a panel on a view; fails when either is bound.
    pub fn bind(&mut self, panel: PanelId, view: ViewId) -> (r: Result<(), PlacementError>)
        requires
            old(self).wf(),
        ensures
            final(self).wf(),
            match r {
                Ok(_) => view_in(old(self)@, panel) is None && panel_in(old(self)@, view) is None
                    && final(self)@ == old(self)@.push(Mount { panel, view }),
                Err(e) => final(self)@ == old(self)@ && (if view_in(old(self)@, panel) is Some {
                    e == (PlacementError::PanelAlreadyMounted { panel })
                } else {
                    panel_in(old(self)@, view) is Some && e == (PlacementError::ViewOccupied {
                        view,
                    })
                }),
            },
    {
        proof {
            seqs::first_where_is_first(self@, holds(panel));
            seqs::first_where_is_first(self@, stands_on(view));
        }
        if self.panel_position(panel) < self.mounts.len() {
            return Err(PlacementError::PanelAlreadyMounted { panel });
        }
        if self.view_position(view) < self.mounts.len() {
            return Err(PlacementError::ViewOccupied { view });
        }
        self.mounts.push(Mount { panel, view });
        assert forall|i: int, j: int| 0 <= i < j < self@.len() implies (
        #[trigger] self@[i]).panel != (#[trigger] self@[j]).panel && self@[i].view
            != self@[j].view by {
            assert(self@[i] == old(self)@[i]);
            if j < old(self)@.len() {
                assert(self@[j] == old(self)@[j]);
            } else {
                assert(!holds(panel)(old(self)@[i]));
                assert(!stands_on(view)(old(self)@[i]));
            }
        }
        Ok(())
    }

    /// Removes the binding of a panel and returns its view.
    pub fn unbind(&mut self, panel: PanelId) -> (r: Result<ViewId, PlacementError>)
        requires
            old(self).wf(),
        ensures
            final(self).wf(),
            match view_in(old(self)@, panel) {
                Some(view) => r == Ok::<ViewId, PlacementError>(view) && final(self)@ == old(
                    self
                )@.remove(seqs::first_where(old(self)@, holds(panel))),
                None => r == Err::<ViewId, PlacementError>(PlacementError::NotMounted { panel })
                    && final(self)@ == old(self)@,
            },
    {
        let k: usize = self.panel_position(panel);
        if k >= self.mounts.len() {
            return Err(PlacementError::NotMounted { panel });
        }
        let mount = self.mounts.remove(k);
        assert forall|i: int, j: int| 0 <= i < j < self@.len() implies (
        #[trigger] self@[i]).panel != (#[trigger] self@[j]).panel && self@[i].view
            != self@[j].view by {
            let a = if i < k {
                i
            } else {
                i + 1
            };
            let b = if j < k {
                j
            } else {
                j + 1
            };
            assert(self@[i] == old(self)@[a] && self@[j] == old(self)@[b]);
        }
        Ok(mount.view)
    }

    /// Moves a panel to another view. Moving it to its own view changes
    /// nothing.
    pub fn reparent(&mut self, panel: PanelId, new_view: ViewId) -> (r: Result<(), PlacementError>)
        requires
            old(self).wf(),
        ensures
            final(self).wf(),
            match view_in(old(self)@, panel) {
                None => r == Err::<(), PlacementError>(PlacementError::NotMounted { panel })
                    && final(self)@ == old(self)@,
                Some(current) => if current == new_view {
                    r is Ok && final(self)@ == old(self)@
                } else if panel_in(old(self)@, new_view) is Some {
                    r == Err::<(), PlacementError>(PlacementError::ViewOccupied { view: new_view })
                        && final(self)@ == old(self)@
                } else {
                    r is Ok && final(self)@ == old(self)@.update(
                        seqs::first_where(old(self)@, holds(panel)),
                        Mount { panel, view: new_view },
                    )
                },
            },
    {
        proof {
            seqs::first_where_is_first(self@, holds(panel));
            seqs::first_where_is_first(self@, stands_on(new_view));
        }
        let k: usize = self.panel_position(panel);
        if k >= self.mounts.len() {
            return Err(PlacementError::NotMounted { panel });
        }
        if self.mounts[k].view == new_view {
            return Ok(());
        }
        if self.view_position(new_view) < self.mounts.len() {
            return Err(PlacementError::ViewOccupied { view: new_view });
        }
        self.mounts.set(k, Mount { panel, view: new_view });
        assert forall|i: int, j: int| 0 <= i < j < self@.len() implies (
        #[trigger] self@[i]).panel != (#[trigger] self@[j]).panel && self@[i].view
            != self@[j].view by {
            assert(old(self)@[i].panel != old(self)@[j].panel);
            assert(!stands_on(new_view)(old(self)@[i]));
            assert(!stands_on(new_view)(old(self)@[j]));
        }
        Ok(())
    }

    /// The view of a panel, if any.
    #[must_use]
    pub fn view_of(&self, panel: PanelId) -> (view: Option<ViewId>)
        ensures
            view == view_in(self@, panel),
    {
        let k: usize = self.panel_position(panel);
        if k < self.mounts.len() {
            Some(self.mounts[k].view)
        } else {
            None
        }
    }

    /// The panel on a view, if any.
    #[must_use]
    pub fn panel_of(&self, view: ViewId) -> (panel: Option<PanelId>)
        ensures
            panel == panel_in(self@, view),
    {
        let k: usize = self.view_position(view);
        if k < self.mounts.len() {
            Some(self.mounts[k].panel)
        } else {
            None
        }
    }

    /// Whether the panel is mounted.
    #[must_use]
    pub fn is_bound(&self, panel: PanelId) -> (bound: bool)
        ensures
            bound == (view_in(self@, panel) is Some),
    {
        self.panel_position(panel) < self.mounts.len()
    }

    /// Number of bindings.
    #[must_use]
    pub fn len(&self) -> (n: usize)
        ensures
            n == self@.len(),
    {
        self.mounts.len()
    }

    /// Whether there is no binding.
    #[must_use]
    pub fn is_empty(&self) -> (empty: bool)
        ensures
            empty == (self@.len() == 0),
    {
        self.mounts.len() == 0
    }
}

impl Default for Placement {
    fn default() -> (p: Self)
        ensures
            p.wf(),
            p@ == Seq::<Mount>::empty(),
    {
        Self::new()
    }
}

impl Clone for Placement {
    fn clone(&self) -> (p: Self)
        ensures
            p@ == self@,
    {
        let p = Self { mounts: self.mounts.clone() };
        assert(p@ =~= self@);
        p
    }
}

/// A bound panel is found on its view, and no other panel moves.
pub proof fn binding_mounts_one_panel(
    mounts: Seq<Mount>,
    panel: PanelId,
    view: ViewId,
    other: PanelId,
)
    requires
        one_to_one(mounts),
        view_in(mounts, panel) is None,
        panel_in(mounts, view) is None,
    ensures
        view_in(mounts.push(Mount { panel, view }), panel) == Some(view),
        other != panel ==> view_in(mounts.push(Mount { panel, view }), other) == view_in(
            mounts,
            other,
        ),
{
    seqs::find_where_push(mounts, Mount { panel, view }, holds(panel));
    seqs::find_where_push(mounts, Mount { panel, view }, holds(other));
}

/// Unbinding a panel that was just bound gives the bindings back.
pub proof fn unbinding_undoes_binding(mounts: Seq<Mount>, panel: PanelId, view: ViewId)
    requires
        view_in(mounts, panel) is None,
    ensures
        ({
            let more = mounts.push(Mount { panel, view });
            more.remove(seqs::first_where(more, holds(panel))) == mounts
        }),
{
    let more = mounts.push(Mount { panel, view });
    seqs::first_where_is_first(mounts, holds(panel));
    assert forall|j: int| 0 <= j < mounts.len() implies !holds(panel)(#[trigger] more[j]) by {
        assert(more[j] == mounts[j]);
    }
    seqs::first_where_unique(more, holds(panel), mounts.len() as int);
    assert(more.remove(mounts.len() as int) =~= mounts);
}

/// Focus target that input sees.
#[derive(Debug, Clone, Copy, PartialEq, Eq, Structural, Hash)]
pub enum FocusTarget {
    /// A panel.
    Panel(PanelId),
    /// A view.
    View(ViewId),
}

/// Resolves the focus target: a focused panel wins over a focused view.
#[must_use]
pub fn resolve_focus(panel_focus: Option<PanelId>, view_focus: Option<ViewId>) -> (target: Option<
    FocusTarget,
>)
    ensures
        target == match (panel_focus, view_focus) {
            (Some(p), _) => Some(FocusTarget::Panel(p)),
            (None, Some(v)) => Some(FocusTarget::View(v)),
            (None, None) => None,
        },
{
    if let Some(panel) = panel_focus {
        return Some(FocusTarget::Panel(panel));
    }
    match view_focus {
        Some(v) => Some(FocusTarget::View(v)),
        None => None,
    }
}

} // verus!
