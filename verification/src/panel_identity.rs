//! Stable panel identity and the physical slots that panels are shown in.

use crate::panel::PanelId;
use crate::seqs;
use crate::text;
use vstd::prelude::*;
use vstd::string::*;

verus! {

/// Number of physical slots.
pub const MAX_IDENTITY_SLOTS: u8 = 9;

/// Most panels in one registry.
pub const MAX_IDENTITY_PANELS: usize = 256;

/// Longest display title in characters.
pub const MAX_IDENTITY_TITLE_LEN: usize = 64;

/// Physical slot: a position, never an identity.
#[derive(Debug, Clone, Copy, PartialEq, Eq, Structural, Hash, PartialOrd, Ord)]
pub struct SlotNumber(u8);

impl SlotNumber {
    /// The position of the slot.
    pub closed spec fn position(self) -> u8 {
        self.0
    }

    /// The position is one of the physical slots.
    pub open spec fn in_range(self) -> bool {
        1 <= self.position() <= MAX_IDENTITY_SLOTS
    }

    /// Two slots with one position are the same slot.
    pub proof fn determined_by_position(a: SlotNumber, b: SlotNumber)
        ensures
            a.position() == b.position() <==> a == b,
    {
    }

    /// Creates a slot; values outside the range are refused.
    pub fn new(raw: u8) -> (r: Result<Self, IdentityError>)
        ensures
            if 1 <= raw <= MAX_IDENTITY_SLOTS {
                r matches Ok(s) && s.position() == raw && s.in_range()
            } else {
                r == Err::<SlotNumber, IdentityError>(IdentityError::SlotOutOfRange { found: raw })
            },
    {
        if raw == 0 || raw > MAX_IDENTITY_SLOTS {
            return Err(IdentityError::SlotOutOfRange { found: raw });
        }
        Ok(Self(raw))
    }

    /// Returns the raw value.
    #[must_use]
    pub fn get(self) -> (raw: u8)
        ensures
            raw == self.position(),
    {
        self.0
    }

    /// The spelling `slot <raw>`.
    pub open spec fn spelled(self) -> Seq<char> {
        "slot "@ + text::decimal(self.position() as nat)
    }

    /// Spells the slot for messages.
    #[must_use]
    pub fn text(self) -> (out: String)
        ensures
            out@ == self.spelled(),
    {
        text::ending_number("slot ", self.0 as u64)
    }
}

/// Handle that names a panel without showing its id.
#[derive(Debug, Clone, Copy, PartialEq, Eq, Structural, Hash, PartialOrd, Ord)]
pub struct OpaquePanelHandle {
    panel: PanelId,
}

impl OpaquePanelHandle {
    /// The panel that the handle names.
    pub closed spec fn names(self) -> PanelId {
        self.panel
    }

    pub(crate) fn mint(panel: PanelId) -> (h: Self)
        ensures
            h.names() == panel,
    {
        Self { panel }
    }

    /// The named panel, for the registry.
    #[must_use]
    pub fn panel_for_registry(self) -> (id: PanelId)
        ensures
            id == self.names(),
    {
        self.panel
    }

    /// Spells the handle without its id.
    #[must_use]
    pub fn text(self) -> (out: String)
        ensures
            out@ == "PanelHandle(opaque)"@,
    {
        "PanelHandle(opaque)".to_owned()
    }
}

/// Failure of an identity change.
#[derive(Debug, Clone, Copy, PartialEq, Eq, Structural)]
pub enum IdentityError {
    /// The panel cannot be used here: it has no binding, or it has one where
    /// none may be.
    UnknownPanel { panel: PanelId },
    /// No panel is in the slot.
    EmptySlot { slot: SlotNumber },
    /// Another panel is in the slot.
    SlotOccupied { slot: SlotNumber },
    /// The raw slot value is out of range.
    SlotOutOfRange { found: u8 },
    /// The title is too long.
    TitleTooLong { found: usize, cap: usize },
    /// There are too many panels.
    TooManyPanels { found: usize, cap: usize },
}

impl IdentityError {
    /// The message of the error.
    pub open spec fn spelled(self) -> Seq<char> {
        match self {
            IdentityError::UnknownPanel { panel } => "unknown panel: "@ + panel.spelled(),
            IdentityError::EmptySlot { slot } => "slot is empty: "@ + slot.spelled(),
            IdentityError::SlotOccupied { slot } => "slot occupied: "@ + slot.spelled(),
            IdentityError::SlotOutOfRange { found } => "slot out of range: "@ + text::decimal(
                found as nat,
            ) + ", cap "@ + text::decimal(MAX_IDENTITY_SLOTS as nat),
            IdentityError::TitleTooLong { found, cap } => "title too long: "@ + text::decimal(
                found as nat,
            ) + " chars, cap "@ + text::decimal(cap as nat),
            IdentityError::TooManyPanels { found, cap } => "too many panels: "@ + text::decimal(
                found as nat,
            ) + ", cap "@ + text::decimal(cap as nat),
        }
    }

    /// Spells the error.
    #[must_use]
    pub fn text(&self) -> (out: String)
        ensures
            out@ == self.spelled(),
    {
        match self {
            Self::UnknownPanel { panel } => text::joined("unknown panel: ", panel.text().as_str()),
            Self::EmptySlot { slot } => text::joined("slot is empty: ", slot.text().as_str()),
            Self::SlotOccupied { slot } => text::joined("slot occupied: ", slot.text().as_str()),
            Self::SlotOutOfRange { found } => text::ending_numbers(
                "slot out of range: ",
                *found as u64,
                ", cap ",
                MAX_IDENTITY_SLOTS as u64,
            ),
            Self::TitleTooLong { found, cap } => text::ending_numbers(
                "title too long: ",
                *found as u64,
                " chars, cap ",
                *cap as u64,
            ),
            Self::TooManyPanels { found, cap } => text::ending_numbers(
                "too many panels: ",
                *found as u64,
                ", cap ",
                *cap as u64,
            ),
        }
    }
}

/// A panel, its slot and its title.
pub ghost struct Seat {
    /// The panel.
    pub panel: PanelId,
    /// The slot it is shown in.
    pub slot: SlotNumber,
    /// Its display title.
    pub title: Seq<char>,
}

/// The condition of seating the panel.
pub open spec fn seats(panel: PanelId) -> spec_fn(Seat) -> bool {
    |s: Seat| s.panel == panel
}

/// The condition of filling the slot.
pub open spec fn fills(slot: SlotNumber) -> spec_fn(Seat) -> bool {
    |s: Seat| s.slot == slot
}

/// The seat of a panel.
pub open spec fn seat_in(all: Seq<Seat>, panel: PanelId) -> Option<Seat> {
    seqs::find_where(all, seats(panel))
}

/// The seat in a slot.
pub open spec fn seat_at(all: Seq<Seat>, slot: SlotNumber) -> Option<Seat> {
    seqs::find_where(all, fills(slot))
}

/// No panel sits twice, no slot is filled twice, every slot is a physical one
/// and every title keeps its bound.
pub open spec fn well_seated(all: Seq<Seat>) -> bool {
    &&& forall|i: int, j: int|
        0 <= i < j < all.len() ==> (#[trigger] all[i]).panel != (#[trigger] all[j]).panel
            && all[i].slot != all[j].slot
    &&& forall|i: int|
        0 <= i < all.len() ==> (#[trigger] all[i]).slot.in_range() && all[i].title.len()
            <= MAX_IDENTITY_TITLE_LEN
}

/// The seats after a panel was moved into a slot: whoever was there takes the
/// slot that became free.
pub open spec fn reseated(all: Seq<Seat>, panel: PanelId, slot: SlotNumber) -> Seq<Seat> {
    let k = seqs::first_where(all, seats(panel));
    let m = seqs::first_where(all, fills(slot));
    let moved = all.update(k, Seat { slot, ..all[k] });
    if m < all.len() && m != k {
        moved.update(m, Seat { slot: all[k].slot, ..all[m] })
    } else {
        moved
    }
}

/// The same seats, in whatever order.
pub open spec fn same_seats(a: Seq<Seat>, b: Seq<Seat>) -> bool {
    forall|s: Seat| #[trigger] a.contains(s) <==> b.contains(s)
}

/// Registries with the same seats give every panel and every slot the same
/// seat.
pub proof fn same_seats_answer_alike(
    a: Seq<Seat>,
    b: Seq<Seat>,
    panel: PanelId,
    slot: SlotNumber,
)
    requires
        well_seated(a),
        well_seated(b),
        same_seats(a, b),
    ensures
        seat_in(a, panel) == seat_in(b, panel),
        seat_at(a, slot) == seat_at(b, slot),
{
    seqs::first_where_is_first(a, seats(panel));
    seqs::first_where_is_first(b, seats(panel));
    seqs::first_where_is_first(a, fills(slot));
    seqs::first_where_is_first(b, fills(slot));
    lemma_seat_found(a, b, panel, slot);
    lemma_seat_found(b, a, panel, slot);
}

proof fn lemma_seat_found(a: Seq<Seat>, b: Seq<Seat>, panel: PanelId, slot: SlotNumber)
    requires
        well_seated(b),
        same_seats(a, b),
    ensures
        seat_in(a, panel) is Some ==> seat_in(b, panel) == seat_in(a, panel),
        seat_at(a, slot) is Some ==> seat_at(b, slot) == seat_at(a, slot),
{
    seqs::first_where_is_first(a, seats(panel));
    seqs::first_where_is_first(a, fills(slot));
    if let Some(s) = seat_in(a, panel) {
        assert(a.contains(s));
        assert(b.contains(s));
        let i = choose|i: int| 0 <= i < b.len() && b[i] == s;
        assert forall|j: int| 0 <= j < i implies !seats(panel)(#[trigger] b[j]) by {}
        seqs::first_where_unique(b, seats(panel), i);
    }
    if let Some(s) = seat_at(a, slot) {
        assert(a.contains(s));
        assert(b.contains(s));
        let i = choose|i: int| 0 <= i < b.len() && b[i] == s;
        assert forall|j: int| 0 <= j < i implies !fills(slot)(#[trigger] b[j]) by {}
        seqs::first_where_unique(b, fills(slot), i);
    }
}

/// Why a panel cannot be bound.
pub open spec fn bind_fault(
    all: Seq<Seat>,
    panel: PanelId,
    slot: SlotNumber,
    title: Seq<char>,
) -> Option<IdentityError> {
    if seat_in(all, panel) is Some {
        Some(IdentityError::UnknownPanel { panel })
    } else if all.len() >= MAX_IDENTITY_PANELS {
        Some(
            IdentityError::TooManyPanels {
                found: (all.len() + 1) as usize,
                cap: MAX_IDENTITY_PANELS,
            },
        )
    } else if seat_at(all, slot) is Some {
        Some(IdentityError::SlotOccupied { slot })
    } else {
        title_fault(title)
    }
}

/// Why a title is refused.
pub open spec fn title_fault(title: Seq<char>) -> Option<IdentityError> {
    if title.len() > MAX_IDENTITY_TITLE_LEN {
        Some(
            IdentityError::TitleTooLong {
                found: title.len() as usize,
                cap: MAX_IDENTITY_TITLE_LEN,
            },
        )
    } else {
        None
    }
}

/// One bound panel.
#[derive(Debug, PartialEq, Eq)]
pub struct IdentityEntry {
    panel: PanelId,
    slot: SlotNumber,
    title: String,
}

impl View for IdentityEntry {
    type V = Seat;

    closed spec fn view(&self) -> Seat {
        Seat { panel: self.panel, slot: self.slot, title: self.title@ }
    }
}

/// Bindings of panels to slots with display titles.
#[derive(Debug, Eq)]
pub struct IdentityRegistry {
    entries: Vec<IdentityEntry>,
}

impl View for IdentityRegistry {
    type V = Seq<Seat>;

    closed spec fn view(&self) -> Seq<Seat> {
        self.entries@.map_values(|e: IdentityEntry| e@)
    }
}

impl IdentityRegistry {
    /// Every bound panel has one slot and one title, and every filled slot
    /// names one panel.
    pub open spec fn wf(self) -> bool {
        well_seated(self@)
    }

    /// Creates an empty registry.
    #[must_use]
    pub fn new() -> (r: Self)
        ensures
            r.wf(),
            r@ == Seq::<Seat>::empty(),
    {
        let r = Self { entries: Vec::new() };
        assert(r@ =~= Seq::<Seat>::empty());
        r
    }

    /// Number of bound panels.
    #[must_use]
    pub fn len(&self) -> (n: usize)
        ensures
            n == self@.len(),
    {
        self.entries.len()
    }

    /// Whether no panel is bound.
    #[must_use]
    pub fn is_empty(&self) -> (empty: bool)
        ensures
            empty == (self@.len() == 0),
    {
        self.entries.len() == 0
    }

    fn panel_position(&self, panel: PanelId) -> (k: usize)
        ensures
            k == seqs::first_where(self@, seats(panel)),
            k <= self@.len(),
            k < self@.len() <==> seat_in(self@, panel) is Some,
            k < self@.len() ==> self@[k as int].panel == panel,
    {
        let mut i: usize = 0;
        while i < self.entries.len()
            invariant
                0 <= i <= self.entries.len(),
                forall|j: int| 0 <= j < i ==> !seats(panel)(#[trigger] self@[j]),
            decreases self.entries.len() - i,
        {
            if self.entries[i].panel == panel {
                proof {
                    seqs::first_where_unique(self@, seats(panel), i as int);
                }
                return i;
            }
            i = i + 1;
        }
        proof {
            seqs::first_where_unique(self@, seats(panel), i as int);
        }
        i
    }

    fn slot_position(&self, slot: SlotNumber) -> (k: usize)
        ensures
            k == seqs::first_where(self@, fills(slot)),
            k <= self@.len(),
            k < self@.len() <==> seat_at(self@, slot) is Some,
            k < self@.len() ==> self@[k as int].slot == slot,
    {
        let mut i: usize = 0;
        while i < self.entries.len()
            invariant
                0 <= i <= self.entries.len(),
                forall|j: int| 0 <= j < i ==> !fills(slot)(#[trigger] self@[j]),
            decreases self.entries.len() - i,
        {
            if self.entries[i].slot == slot {
                proof {
                    seqs::first_where_unique(self@, fills(slot), i as int);
                }
                return i;
            }
            i = i + 1;
        }
        proof {
            seqs::first_where_unique(self@, fills(slot), i as int);
        }
        i
    }

    /// Whether every binding is one of the other registry.
    fn is_within(&self, other: &Self) -> (yes: bool)
        ensures
            yes == forall|i: int| 0 <= i < self@.len() ==> other@.contains(#[trigger] self@[i]),
    {
        let mut i: usize = 0;
        while i < self.entries.len()
            invariant
                0 <= i <= self.entries.len(),
                forall|j: int| 0 <= j < i ==> other@.contains(#[trigger] self@[j]),
            decreases self.entries.len() - i,
        {
            let entry = &self.entries[i];
            let ghost seat = self@[i as int];
            let mut found: bool = false;
            let mut k: usize = 0;
            while k < other.entries.len()
                invariant
                    0 <= k <= other.entries.len(),
                    seat == entry@,
                    found == exists|j: int| 0 <= j < k && #[trigger] other@[j] == seat,
                decreases other.entries.len() - k,
            {
                let theirs = &other.entries[k];
                assert(other@[k as int] == theirs@);
                if theirs.panel == entry.panel && theirs.slot == entry.slot && text::same_text(
                    theirs.title.as_str(),
                    entry.title.as_str(),
                ) {
                    assert(theirs@ == seat);
                    found = true;
                }
                k = k + 1;
            }
            if !found {
                assert(!other@.contains(seat));
                return false;
            }
            i = i + 1;
        }
        true
    }

    /// Binds a panel to a slot with a title. A bound panel, a full registry, a
    /// filled slot and an overlong title are refused, in this order, and change
    /// nothing.
    pub fn bind(&mut self, panel: PanelId, slot: SlotNumber, title: &str) -> (r: Result<
        OpaquePanelHandle,
        IdentityError,
    >)
        requires
            old(self).wf(),
            slot.in_range(),
        ensures
            final(self).wf(),
            match bind_fault(old(self)@, panel, slot, title@) {
                Some(fault) => r == Err::<OpaquePanelHandle, IdentityError>(fault) && final(self)@
                    == old(self)@,
                None => (r matches Ok(h) && h.names() == panel) && final(self)@ == old(self)@.push(
                    Seat { panel, slot, title: title@ },
                ),
            },
    {
        proof {
            seqs::first_where_is_first(self@, seats(panel));
            seqs::first_where_is_first(self@, fills(slot));
        }
        if self.panel_position(panel) < self.entries.len() {
            return Err(IdentityError::UnknownPanel { panel });
        }
        if self.entries.len() >= MAX_IDENTITY_PANELS {
            proof {
                at_most_nine_seats(self@);
            }
            return Err(
                IdentityError::TooManyPanels {
                    found: self.entries.len() + 1,
                    cap: MAX_IDENTITY_PANELS,
                },
            );
        }
        if self.slot_position(slot) < self.entries.len() {
            return Err(IdentityError::SlotOccupied { slot });
        }
        let title: String = match check_title(title) {
            Ok(t) => t,
            Err(e) => return Err(e),
        };
        let ghost before = self@;
        let ghost seat = Seat { panel, slot, title: title@ };
        self.entries.push(IdentityEntry { panel, slot, title });
        assert(self@ =~= before.push(seat));
        assert forall|i: int, j: int| 0 <= i < j < self@.len() implies (
        #[trigger] self@[i]).panel != (#[trigger] self@[j]).panel && self@[i].slot
            != self@[j].slot by {
            assert(self@[i] == before[i]);
            if j < before.len() {
                assert(self@[j] == before[j]);
            } else {
                assert(!seats(panel)(before[i]));
                assert(!fills(slot)(before[i]));
            }
        }
        Ok(OpaquePanelHandle::mint(panel))
    }

    /// Moves a panel into a slot; whoever is there takes its former slot.
    pub fn reseat(&mut self, panel: PanelId, slot: SlotNumber) -> (r: Result<(), IdentityError>)
        requires
            old(self).wf(),
            slot.in_range(),
        ensures
            final(self).wf(),
            if seat_in(old(self)@, panel) is Some {
                r is Ok && final(self)@ == reseated(old(self)@, panel, slot)
            } else {
                r == Err::<(), IdentityError>(IdentityError::UnknownPanel { panel })
                    && final(self)@ == old(self)@
            },
    {
        proof {
            seqs::first_where_is_first(self@, seats(panel));
            seqs::first_where_is_first(self@, fills(slot));
            if seat_in(self@, panel) is Some {
                reseating_keeps_the_bindings(self@, panel, slot);
            }
        }
        let k: usize = self.panel_position(panel);
        if k >= self.entries.len() {
            return Err(IdentityError::UnknownPanel { panel });
        }
        let m: usize = self.slot_position(slot);
        let previous = self.entries[k].slot;
        let ghost before = self@;
        if m < self.entries.len() && m != k {
            let other = IdentityEntry {
                panel: self.entries[m].panel,
                slot: previous,
                title: self.entries[m].title.clone(),
            };
            self.entries.set(m, other);
        }
        let moved = IdentityEntry { panel, slot, title: self.entries[k].title.clone() };
        self.entries.set(k, moved);
        assert(self@ =~= reseated(before, panel, slot));
        Ok(())
    }

    /// Removes the binding of a panel and frees its slot.
    pub fn unbind(&mut self, panel: PanelId) -> (r: Result<(), IdentityError>)
        requires
            old(self).wf(),
        ensures
            final(self).wf(),
            if seat_in(old(self)@, panel) is Some {
                r is Ok && final(self)@ == old(self)@.remove(
                    seqs::first_where(old(self)@, seats(panel)),
                )
            } else {
                r == Err::<(), IdentityError>(IdentityError::UnknownPanel { panel })
                    && final(self)@ == old(self)@
            },
    {
        let k: usize = self.panel_position(panel);
        if k >= self.entries.len() {
            return Err(IdentityError::UnknownPanel { panel });
        }
        let ghost before = self@;
        let _gone = self.entries.remove(k);
        assert(self@ =~= before.remove(k as int));
        assert forall|i: int, j: int| 0 <= i < j < self@.len() implies (
        #[trigger] self@[i]).panel != (#[trigger] self@[j]).panel && self@[i].slot
            != self@[j].slot by {
            let a = if i < k {
                i
            } else {
                i + 1
            };
            let b = if j < k {
                j
            } else {
                j + 1
            };
            assert(self@[i] == before[a] && self@[j] == before[b]);
        }
        assert forall|i: int| 0 <= i < self@.len() implies (#[trigger] self@[i]).slot.in_range()
            && self@[i].title.len() <= MAX_IDENTITY_TITLE_LEN by {
            let a = if i < k {
                i
            } else {
                i + 1
            };
            assert(self@[i] == before[a]);
        }
        Ok(())
    }

    /// The slot of a panel.
    pub fn slot_of(&self, panel: PanelId) -> (r: Result<SlotNumber, IdentityError>)
        ensures
            r == match seat_in(self@, panel) {
                Some(s) => Ok::<SlotNumber, IdentityError>(s.slot),
                None => Err::<SlotNumber, IdentityError>(IdentityError::UnknownPanel { panel }),
            },
    {
        let k: usize = self.panel_position(panel);
        if k < self.entries.len() {
            assert(self@[k as int] == self.entries@[k as int]@);
            Ok(self.entries[k].slot)
        } else {
            Err(IdentityError::UnknownPanel { panel })
        }
    }

    /// The panel in a slot.
    pub fn panel_at(&self, slot: SlotNumber) -> (r: Result<PanelId, IdentityError>)
        ensures
            r == match seat_at(self@, slot) {
                Some(s) => Ok::<PanelId, IdentityError>(s.panel),
                None => Err::<PanelId, IdentityError>(IdentityError::EmptySlot { slot }),
            },
    {
        let k: usize = self.slot_position(slot);
        if k < self.entries.len() {
            assert(self@[k as int] == self.entries@[k as int]@);
            Ok(self.entries[k].panel)
        } else {
            Err(IdentityError::EmptySlot { slot })
        }
    }

    /// Changes the title of a panel.
    pub fn set_title(&mut self, panel: PanelId, title: &str) -> (r: Result<(), IdentityError>)
        requires
            old(self).wf(),
        ensures
            final(self).wf(),
            match (seat_in(old(self)@, panel), title_fault(title@)) {
                (None, _) => r == Err::<(), IdentityError>(IdentityError::UnknownPanel { panel })
                    && final(self)@ == old(self)@,
                (Some(_), Some(fault)) => r == Err::<(), IdentityError>(fault) && final(self)@
                    == old(self)@,
                (Some(s), None) => r is Ok && final(self)@ == old(self)@.update(
                    seqs::first_where(old(self)@, seats(panel)),
                    Seat { title: title@, ..s },
                ),
            },
    {
        let k: usize = self.panel_position(panel);
        if k >= self.entries.len() {
            return Err(IdentityError::UnknownPanel { panel });
        }
        let title: String = match check_title(title) {
            Ok(t) => t,
            Err(e) => return Err(e),
        };
        let ghost before = self@;
        let ghost seat = Seat { title: title@, ..before[k as int] };
        let slot = self.entries[k].slot;
        self.entries.set(k, IdentityEntry { panel, slot, title });
        assert(self@ =~= before.update(k as int, seat));
        assert forall|i: int, j: int| 0 <= i < j < self@.len() implies (
        #[trigger] self@[i]).panel != (#[trigger] self@[j]).panel && self@[i].slot
            != self@[j].slot by {
            assert(before[i].panel != before[j].panel);
        }
        Ok(())
    }

    /// The title of a panel.
    pub fn title_of(&self, panel: PanelId) -> (r: Result<&str, IdentityError>)
        ensures
            match (r, seat_in(self@, panel)) {
                (Ok(t), Some(s)) => t@ == s.title,
                (Err(e), None) => e == (IdentityError::UnknownPanel { panel }),
                _ => false,
            },
    {
        let k: usize = self.panel_position(panel);
        if k < self.entries.len() {
            assert(self@[k as int] == self.entries@[k as int]@);
            Ok(self.entries[k].title.as_str())
        } else {
            Err(IdentityError::UnknownPanel { panel })
        }
    }

    /// The panel of a handle, while it is bound.
    #[must_use]
    pub fn resolve(&self, handle: OpaquePanelHandle) -> (panel: Option<PanelId>)
        ensures
            panel == (if seat_in(self@, handle.names()) is Some {
                Some(handle.names())
            } else {
                None
            }),
    {
        let panel = handle.panel_for_registry();
        if self.panel_position(panel) < self.entries.len() {
            Some(panel)
        } else {
            None
        }
    }

    /// The handle of a bound panel.
    pub fn handle_of(&self, panel: PanelId) -> (r: Result<OpaquePanelHandle, IdentityError>)
        ensures
            if seat_in(self@, panel) is Some {
                r matches Ok(h) && h.names() == panel
            } else {
                r == Err::<OpaquePanelHandle, IdentityError>(IdentityError::UnknownPanel { panel })
            },
    {
        if self.panel_position(panel) < self.entries.len() {
            Ok(OpaquePanelHandle::mint(panel))
        } else {
            Err(IdentityError::UnknownPanel { panel })
        }
    }
}

impl Default for IdentityRegistry {
    fn default() -> (r: Self)
        ensures
            r.wf(),
            r@ == Seq::<Seat>::empty(),
    {
        Self::new()
    }
}

/// Registries are equal when they hold the same bindings, in whatever order
/// they were made.
impl PartialEq for IdentityRegistry {
    fn eq(&self, other: &Self) -> (same: bool) {
        let same: bool = self.is_within(other) && other.is_within(self);
        proof {
            if same_seats(self@, other@) {
                assert forall|i: int| 0 <= i < self@.len() implies other@.contains(
                    #[trigger] self@[i],
                ) by {
                    assert(self@.contains(self@[i]));
                }
                assert forall|i: int| 0 <= i < other@.len() implies self@.contains(
                    #[trigger] other@[i],
                ) by {
                    assert(other@.contains(other@[i]));
                }
            }
        }
        same
    }
}

impl vstd::std_specs::cmp::PartialEqSpecImpl for IdentityRegistry {
    open spec fn obeys_eq_spec() -> bool {
        true
    }

    open spec fn eq_spec(&self, other: &Self) -> bool {
        same_seats(self@, other@)
    }
}

impl Clone for IdentityRegistry {
    fn clone(&self) -> (r: Self)
        ensures
            r@ == self@,
    {
        let mut entries: Vec<IdentityEntry> = Vec::new();
        let mut i: usize = 0;
        while i < self.entries.len()
            invariant
                0 <= i <= self.entries.len(),
                entries@.len() == i,
                forall|j: int| 0 <= j < i ==> (#[trigger] entries@[j])@ == self.entries@[j]@,
            decreases self.entries.len() - i,
        {
            entries.push(
                IdentityEntry {
                    panel: self.entries[i].panel,
                    slot: self.entries[i].slot,
                    title: self.entries[i].title.clone(),
                },
            );
            i = i + 1;
        }
        let r = Self { entries };
        assert(r@ =~= self@);
        r
    }
}

fn check_title(title: &str) -> (r: Result<String, IdentityError>)
    ensures
        match title_fault(title@) {
            Some(fault) => r == Err::<String, IdentityError>(fault),
            None => r matches Ok(t) && t@ == title@,
        },
{
    let found: usize = text::chars_of(title).len();
    if found > MAX_IDENTITY_TITLE_LEN {
        return Err(IdentityError::TitleTooLong { found, cap: MAX_IDENTITY_TITLE_LEN });
    }
    Ok(title.to_owned())
}

/// There are never more bound panels than physical slots.
pub proof fn at_most_nine_seats(all: Seq<Seat>)
    requires
        well_seated(all),
    ensures
        all.len() <= MAX_IDENTITY_SLOTS,
{
    let slots = all.map_values(|s: Seat| s.slot.position() as int);
    assert(slots.no_duplicates()) by {
        assert forall|i: int, j: int|
            0 <= i < slots.len() && 0 <= j < slots.len() && i != j implies slots[i]
            != slots[j] by {
            SlotNumber::determined_by_position(all[i].slot, all[j].slot);
            if i < j {
                assert(all[i].slot != all[j].slot);
            } else {
                assert(all[j].slot != all[i].slot);
            }
        }
    }
    slots.unique_seq_to_set();
    vstd::set_lib::lemma_int_range(1, 10);
    assert(slots.to_set().subset_of(vstd::set_lib::set_int_range(1, 10))) by {
        assert forall|x: int| slots.to_set().contains(x) implies vstd::set_lib::set_int_range(
            1,
            10,
        ).contains(x) by {
            let i = choose|i: int| 0 <= i < slots.len() && slots[i] == x;
            assert(all[i].slot.in_range());
        }
    }
    vstd::set_lib::lemma_len_subset(slots.to_set(), vstd::set_lib::set_int_range(1, 10));
}

/// Reseating moves the panel into the slot, gives its former slot to whoever
/// was there, and changes no panel, no title and no other slot.
pub proof fn reseating_keeps_the_bindings(all: Seq<Seat>, panel: PanelId, slot: SlotNumber)
    requires
        well_seated(all),
        slot.in_range(),
        seat_in(all, panel) is Some,
    ensures
        ({
            let after = reseated(all, panel, slot);
            &&& well_seated(after)
            &&& after.len() == all.len()
            &&& seat_in(after, panel) matches Some(s) && s.slot == slot
            &&& forall|i: int|
                0 <= i < all.len() ==> (#[trigger] after[i]).panel == all[i].panel
                    && after[i].title == all[i].title
            &&& forall|i: int|
                0 <= i < all.len() && all[i].panel != panel && all[i].slot != slot
                    ==> #[trigger] after[i] == all[i]
        }),
{
    let after = reseated(all, panel, slot);
    let k = seqs::first_where(all, seats(panel));
    let m = seqs::first_where(all, fills(slot));
    seqs::first_where_is_first(all, seats(panel));
    seqs::first_where_is_first(all, fills(slot));
    assert forall|i: int, j: int| 0 <= i < j < after.len() implies (#[trigger] after[i]).panel != (
    #[trigger] after[j]).panel && after[i].slot != after[j].slot by {
        assert(all[i].panel != all[j].panel && all[i].slot != all[j].slot);
        if m >= all.len() {
            assert(!fills(slot)(all[i]));
            assert(!fills(slot)(all[j]));
        } else {
            if i != m && i != k {
                lemma_slot_once(all, i, m);
            }
            if j != m && j != k {
                lemma_slot_once(all, j, m);
            }
        }
    }
    assert forall|i: int| 0 <= i < after.len() implies (#[trigger] after[i]).slot.in_range()
        && after[i].title.len() <= MAX_IDENTITY_TITLE_LEN by {
        assert(all[i].slot.in_range());
        assert(all[k].slot.in_range());
    }
    assert forall|j: int| 0 <= j < k implies !seats(panel)(#[trigger] after[j]) by {
        assert(!seats(panel)(all[j]));
    }
    seqs::first_where_unique(after, seats(panel), k);
    assert forall|i: int|
        0 <= i < all.len() && all[i].panel != panel && all[i].slot != slot implies
        #[trigger] after[i] == all[i] by {}
}

/// Reseating a panel back into its former slot restores every seat.
pub proof fn reseating_back_restores_the_seats(all: Seq<Seat>, panel: PanelId, slot: SlotNumber)
    requires
        well_seated(all),
        seat_in(all, panel) is Some,
    ensures
        reseated(reseated(all, panel, slot), panel, seat_in(all, panel)->0.slot) == all,
{
    let after = reseated(all, panel, slot);
    let k = seqs::first_where(all, seats(panel));
    let m = seqs::first_where(all, fills(slot));
    let former = all[k].slot;
    seqs::first_where_is_first(all, seats(panel));
    seqs::first_where_is_first(all, fills(slot));
    assert forall|j: int| 0 <= j < k implies !seats(panel)(#[trigger] after[j]) by {
        assert(!seats(panel)(all[j]));
    }
    seqs::first_where_unique(after, seats(panel), k);
    if m == k {
        assert(after =~= all);
    } else {
        assert(fills(slot)(all[k]) ==> m < k);
        assert forall|j: int| 0 <= j < after.len() && j != m implies !fills(former)(
            #[trigger] after[j],
        ) by {
            if j == k {
                if former == slot {
                    assert(m < k);
                    lemma_slot_once(all, m, k);
                }
            } else {
                lemma_slot_once(all, j, k);
            }
        }
        seqs::first_where_unique(after, fills(former), m);
    }
    assert(reseated(after, panel, former) =~= all);
}

proof fn lemma_slot_once(all: Seq<Seat>, i: int, m: int)
    requires
        well_seated(all),
        0 <= i < all.len(),
        0 <= m < all.len(),
        i != m,
    ensures
        all[i].slot != all[m].slot,
{
    if i < m {
        assert(all[i].slot != all[m].slot);
    } else {
        assert(all[m].slot != all[i].slot);
    }
}

/// Display label of a tab: the slot, a colon and the title.
#[must_use]
pub fn tab_label(slot: SlotNumber, title: &str) -> (out: String)
    ensures
        out@ == text::decimal(slot.position() as nat) + ":"@ + title@,
{
    let mut out = String::new();
    text::push_decimal(&mut out, slot.get() as u64);
    out.append(":");
    out.append(title);
    assert(out@ =~= text::decimal(slot.position() as nat) + ":"@ + title@);
    out
}

/// Reseating swaps: whoever held the wanted slot gets the slot that the panel
/// gave up.
pub proof fn reseating_swaps_two_panels(
    all: Seq<Seat>,
    panel: PanelId,
    slot: SlotNumber,
    i: int,
    j: int,
)
    requires
        well_seated(all),
        0 <= i < all.len(),
        0 <= j < all.len(),
        all[i].panel == panel,
        all[j].panel != panel,
    ensures
        reseated(all, panel, slot)[i].slot == slot,
        all[j].slot == slot ==> reseated(all, panel, slot)[j].slot == all[i].slot,
        all[j].slot != slot ==> reseated(all, panel, slot)[j].slot == all[j].slot,
        reseated(all, panel, slot)[j].panel == all[j].panel,
        reseated(all, panel, slot)[j].title == all[j].title,
        reseated(all, panel, slot)[i].panel == panel,
        reseated(all, panel, slot)[i].title == all[i].title,
{
    seqs::first_where_is_first(all, seats(panel));
    seqs::first_where_is_first(all, fills(slot));
    let k = seqs::first_where(all, seats(panel));
    let m = seqs::first_where(all, fills(slot));
    assert(seats(panel)(all[i]));
    if k < i {
        assert(all[k].panel != all[i].panel);
    } else if i < k {
        assert(!seats(panel)(all[i]));
    }
    if all[j].slot == slot {
        assert(fills(slot)(all[j]));
        if m < j {
            assert(all[m].slot != all[j].slot);
        } else if j < m {
            assert(!fills(slot)(all[j]));
        }
    } else if m < all.len() && m != k {
        assert(fills(slot)(all[m]));
        assert(m != j);
    }
}

/// A panel is bound once, to a free slot, while there is room, under a title of
/// at most 64 characters; the first of these that fails is reported.
pub proof fn bindings_are_refused_in_order(
    all: Seq<Seat>,
    panel: PanelId,
    slot: SlotNumber,
    title: Seq<char>,
)
    ensures
        ({
            let known = exists|i: int| 0 <= i < all.len() && (#[trigger] all[i]).panel == panel;
            let taken = exists|i: int| 0 <= i < all.len() && (#[trigger] all[i]).slot == slot;
            match bind_fault(all, panel, slot, title) {
                Some(IdentityError::UnknownPanel { panel: p }) => known && p == panel,
                Some(IdentityError::TooManyPanels { .. }) => !known && all.len() >= 256,
                Some(IdentityError::SlotOccupied { slot: s }) => !known && taken && s == slot
                    && all.len() < 256,
                Some(IdentityError::TitleTooLong { .. }) => !known && !taken && all.len() < 256 && title.len() > 64,
                Some(_) => false,
                None => !known && !taken && all.len() < 256 && title.len() <= 64,
            }
        }),
{
    seqs::first_where_is_first(all, seats(panel));
    seqs::first_where_is_first(all, fills(slot));
    let k = seqs::first_where(all, seats(panel));
    let m = seqs::first_where(all, fills(slot));
    if k < all.len() {
        assert(all[k].panel == panel);
    } else {
        assert forall|i: int| 0 <= i < all.len() implies (#[trigger] all[i]).panel != panel by {
            assert(!seats(panel)(all[i]));
        }
    }
    if m < all.len() {
        assert(all[m].slot == slot);
    } else {
        assert forall|i: int| 0 <= i < all.len() implies (#[trigger] all[i]).slot != slot by {
            assert(!fills(slot)(all[i]));
        }
    }
}

} // verus!
