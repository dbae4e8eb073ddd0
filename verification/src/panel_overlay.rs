//! Ephemeral overlay surfaces of a window: at most four beside one modal.

use crate::geometry::Rect;
use crate::seqs;
use crate::text;
use vstd::prelude::*;
use vstd::string::*;

verus! {

/// Most overlays of a window beside the modal one.
pub const MAX_OVERLAYS_PER_WINDOW: usize = 4;

/// Longest overlay text in characters.
pub const MAX_OVERLAY_TEXT_LEN: usize = 128;

/// Longest tooltip in characters.
pub const MAX_OVERLAY_TOOLTIP_LEN: usize = 256;

/// Overlay kind.
#[derive(Debug, Clone, Copy, PartialEq, Eq, Structural, Hash)]
pub enum OverlayKind {
    /// At most one per window.
    Modal,
    /// A plain overlay.
    NonModal,
    /// A tooltip.
    Tooltip,
    /// A palette.
    Palette,
}

/// Overlay surface owned by the compositor, not a tiling leaf.
#[derive(Debug, PartialEq, Eq)]
pub struct Overlay {
    /// Handle within the window.
    pub id: u64,
    /// Kind of surface.
    pub kind: OverlayKind,
    /// Where the surface stands.
    pub bounds: Rect,
    /// Shown text.
    pub text: String,
    /// Shown tooltip.
    pub tooltip: Option<String>,
    /// Generation of the owner.
    pub generation: u64,
    /// Whether text or tooltip was cut.
    pub truncated: bool,
}

/// The first `max` characters of a text.
pub open spec fn cut(s: Seq<char>, max: int) -> Seq<char> {
    if s.len() <= max {
        s
    } else {
        s.take(max)
    }
}

/// The characters of an optional string.
pub open spec fn optional_text(t: Option<String>) -> Option<Seq<char>> {
    match t {
        Some(s) => Some(s@),
        None => None,
    }
}

impl Overlay {
    /// The overlay made from these parts: text and tooltip are cut to their
    /// limits, and `truncated` tells whether one of them was.
    pub open spec fn shows(
        self,
        id: u64,
        kind: OverlayKind,
        bounds: Rect,
        text: Seq<char>,
        tooltip: Option<Seq<char>>,
        generation: u64,
    ) -> bool {
        &&& self.id == id
        &&& self.kind == kind
        &&& self.bounds == bounds
        &&& self.generation == generation
        &&& self.text@ == cut(text, MAX_OVERLAY_TEXT_LEN as int)
        &&& optional_text(self.tooltip) == match tooltip {
            Some(t) => Some(cut(t, MAX_OVERLAY_TOOLTIP_LEN as int)),
            None => None,
        }
        &&& self.truncated == (text.len() > MAX_OVERLAY_TEXT_LEN || (tooltip matches Some(t)
            && t.len() > MAX_OVERLAY_TOOLTIP_LEN))
    }

    /// Creates an overlay with bounded text and tooltip.
    pub fn new(
        id: u64,
        kind: OverlayKind,
        bounds: Rect,
        text: &str,
        tooltip: Option<String>,
        generation: u64,
    ) -> (o: Self)
        ensures
            o.shows(id, kind, bounds, text@, optional_text(tooltip), generation),
    {
        let (text, truncated) = truncate_bounded(text, MAX_OVERLAY_TEXT_LEN);
        let (tooltip, tooltip_truncated) = match tooltip {
            Some(t) => {
                let (s, trunc) = truncate_bounded(t.as_str(), MAX_OVERLAY_TOOLTIP_LEN);
                (Some(s), trunc)
            },
            None => (None, false),
        };
        Self {
            id,
            kind,
            bounds,
            text,
            tooltip,
            generation,
            truncated: truncated || tooltip_truncated,
        }
    }

    /// Whether the overlay is modal.
    #[must_use]
    pub fn is_modal(&self) -> (yes: bool)
        ensures
            yes == (self.kind == OverlayKind::Modal),
    {
        self.kind == OverlayKind::Modal
    }
}

impl Clone for Overlay {
    fn clone(&self) -> (o: Self)
        ensures
            o == *self,
    {
        let tooltip: Option<String> = match &self.tooltip {
            Some(t) => Some(t.clone()),
            None => None,
        };
        Self {
            id: self.id,
            kind: self.kind,
            bounds: self.bounds,
            text: self.text.clone(),
            tooltip,
            generation: self.generation,
            truncated: self.truncated,
        }
    }
}

fn truncate_bounded(s: &str, max_chars: usize) -> (r: (String, bool))
    ensures
        r.0@ == cut(s@, max_chars as int),
        r.1 == (s@.len() > max_chars),
{
    let chars = text::chars_of(s);
    if chars.len() <= max_chars {
        return (s.to_owned(), false);
    }
    let head = text::part_of(chars.as_slice(), 0, max_chars);
    assert(head@ =~= s@.take(max_chars as int));
    (text::string_of(head.as_slice()), true)
}

/// The condition of being modal.
pub open spec fn modal() -> spec_fn(Overlay) -> bool {
    |o: Overlay| o.kind == OverlayKind::Modal
}

/// The condition of not being modal.
pub open spec fn plain() -> spec_fn(Overlay) -> bool {
    |o: Overlay| o.kind != OverlayKind::Modal
}

/// The condition of having the handle.
pub open spec fn with_handle(id: u64) -> spec_fn(Overlay) -> bool {
    |o: Overlay| o.id == id
}

/// Why an overlay of this kind cannot join the others.
pub open spec fn overlay_fault(shown: Seq<Overlay>, kind: OverlayKind) -> Option<OverlayError> {
    if kind == OverlayKind::Modal {
        if seqs::count_where(shown, modal()) >= 1 {
            Some(OverlayError::OverlayBusy)
        } else {
            None
        }
    } else if seqs::count_where(shown, plain()) >= MAX_OVERLAYS_PER_WINDOW {
        Some(
            OverlayError::TooManyOverlays {
                max: MAX_OVERLAYS_PER_WINDOW,
                current: seqs::count_where(shown, plain()) as usize,
            },
        )
    } else {
        None
    }
}

/// Per-window overlay manager.
#[derive(Debug, PartialEq, Eq)]
pub struct OverlayManager {
    overlays: Vec<Overlay>,
    next_id: u64,
}

impl OverlayManager {
    /// The overlays in order of creation.
    pub closed spec fn shown(self) -> Seq<Overlay> {
        self.overlays@
    }

    /// The handle of the next overlay.
    pub closed spec fn upcoming(self) -> u64 {
        self.next_id
    }

    /// At most one modal overlay and at most four others; handles start at 1.
    pub open spec fn wf(self) -> bool {
        &&& seqs::count_where(self.shown(), modal()) <= 1
        &&& seqs::count_where(self.shown(), plain()) <= MAX_OVERLAYS_PER_WINDOW
        &&& self.shown().len() <= MAX_OVERLAYS_PER_WINDOW + 1
        &&& self.upcoming() >= 1
    }

    /// Every handle in use lies below the next one, and they rise. This holds
    /// from the start until the handles begin again at 1, and whenever no
    /// overlay is left.
    pub open spec fn counts_up(self) -> bool {
        &&& forall|i: int|
            0 <= i < self.shown().len() ==> (#[trigger] self.shown()[i]).id < self.upcoming()
        &&& forall|i: int, j: int|
            0 <= i < j < self.shown().len() ==> (#[trigger] self.shown()[i]).id < (
            #[trigger] self.shown()[j]).id
    }

    /// No overlay has the handle.
    pub open spec fn is_unused(self, id: u64) -> bool {
        forall|i: int| 0 <= i < self.shown().len() ==> (#[trigger] self.shown()[i]).id != id
    }

    /// Creates a manager without overlays.
    #[must_use]
    pub fn new() -> (m: Self)
        ensures
            m.wf(),
            m.counts_up(),
            m.shown() == Seq::<Overlay>::empty(),
            m.upcoming() == 1,
    {
        Self { overlays: Vec::new(), next_id: 1 }
    }

    /// Number of overlays.
    #[must_use]
    pub fn len(&self) -> (n: usize)
        ensures
            n == self.shown().len(),
    {
        self.overlays.len()
    }

    /// Whether there is no overlay.
    #[must_use]
    pub fn is_empty(&self) -> (empty: bool)
        ensures
            empty == (self.shown().len() == 0),
    {
        self.overlays.len() == 0
    }

    /// Whether a modal overlay is shown.
    #[must_use]
    pub fn modal_active(&self) -> (active: bool)
        ensures
            active == (seqs::count_where(self.shown(), modal()) > 0),
    {
        self.count(true) > 0
    }

    fn count(&self, wanted_modal: bool) -> (n: usize)
        ensures
            n == seqs::count_where(
                self.overlays@,
                if wanted_modal {
                    modal()
                } else {
                    plain()
                },
            ),
            n <= self.overlays@.len(),
    {
        let ghost p = if wanted_modal {
            modal()
        } else {
            plain()
        };
        let mut n: usize = 0;
        let mut i: usize = 0;
        while i < self.overlays.len()
            invariant
                0 <= n <= i <= self.overlays.len(),
                n == seqs::count_where(self.overlays@.take(i as int), p),
                p == if wanted_modal {
                    modal()
                } else {
                    plain()
                },
            decreases self.overlays.len() - i,
        {
            assert(self.overlays@.take(i + 1).drop_last() =~= self.overlays@.take(i as int));
            if self.overlays[i].is_modal() == wanted_modal {
                n = n + 1;
            }
            i = i + 1;
        }
        assert(self.overlays@.take(i as int) =~= self.overlays@);
        n
    }

    /// Creates an overlay. A second modal overlay is refused, and so is a
    /// fifth one that is not modal.
    pub fn create_overlay(
        &mut self,
        kind: OverlayKind,
        bounds: Rect,
        text: &str,
        tooltip: Option<String>,
        generation: u64,
    ) -> (r: Result<u64, OverlayError>)
        requires
            old(self).wf(),
        ensures
            final(self).wf(),
            old(self).counts_up() && old(self).upcoming() < u64::MAX ==> final(self).counts_up(),
            r is Ok && old(self).counts_up() ==> old(self).is_unused(r->Ok_0),
            match overlay_fault(old(self).shown(), kind) {
                Some(fault) => r == Err::<u64, OverlayError>(fault) && *final(self) == *old(self),
                None => {
                    &&& r == Ok::<u64, OverlayError>(old(self).upcoming())
                    &&& final(self).upcoming() == (if old(self).upcoming() == u64::MAX {
                        1
                    } else {
                        (old(self).upcoming() + 1) as u64
                    })
                    &&& final(self).shown().len() == old(self).shown().len() + 1
                    &&& final(self).shown().drop_last() == old(self).shown()
                    &&& final(self).shown().last().shows(
                        old(self).upcoming(),
                        kind,
                        bounds,
                        text@,
                        optional_text(tooltip),
                        generation,
                    )
                },
            },
    {
        proof {
            seqs::counts_add_up(self.overlays@, modal(), plain());
        }
        if kind == OverlayKind::Modal {
            if self.modal_active() {
                return Err(OverlayError::OverlayBusy);
            }
        } else {
            let non_modal_count: usize = self.count(false);
            if non_modal_count >= MAX_OVERLAYS_PER_WINDOW {
                return Err(
                    OverlayError::TooManyOverlays {
                        max: MAX_OVERLAYS_PER_WINDOW,
                        current: non_modal_count,
                    },
                );
            }
        }
        let id: u64 = self.next_id;
        self.next_id = if id == u64::MAX {
            1
        } else {
            id + 1
        };
        let overlay = Overlay::new(id, kind, bounds, text, tooltip, generation);
        proof {
            seqs::count_where_push(self.overlays@, modal(), overlay);
            seqs::count_where_push(self.overlays@, plain(), overlay);
        }
        self.overlays.push(overlay);
        assert(self.overlays@.drop_last() =~= old(self).overlays@);
        proof {
            let (before, after) = (old(self).shown(), self.shown());
            assert forall|i: int| 0 <= i < before.len() implies after[i] == before[i] by {}
        }
        Ok(id)
    }

    fn position(&self, id: u64) -> (k: usize)
        ensures
            k == seqs::first_where(self.overlays@, with_handle(id)),
            k <= self.overlays@.len(),
    {
        let mut i: usize = 0;
        while i < self.overlays.len()
            invariant
                0 <= i <= self.overlays.len(),
                forall|j: int| 0 <= j < i ==> !with_handle(id)(#[trigger] self.overlays@[j]),
            decreases self.overlays.len() - i,
        {
            if self.overlays[i].id == id {
                proof {
                    seqs::first_where_unique(self.overlays@, with_handle(id), i as int);
                }
                return i;
            }
            i = i + 1;
        }
        proof {
            seqs::first_where_unique(self.overlays@, with_handle(id), i as int);
        }
        i
    }

    /// Removes the first overlay with the handle and returns it.
    pub fn dismiss(&mut self, id: u64) -> (r: Option<Overlay>)
        requires
            old(self).wf(),
        ensures
            final(self).wf(),
            old(self).counts_up() ==> final(self).counts_up(),
            final(self).upcoming() == old(self).upcoming(),
            r == seqs::find_where(old(self).shown(), with_handle(id)),
            final(self).shown() == (if r is Some {
                old(self).shown().remove(seqs::first_where(old(self).shown(), with_handle(id)))
            } else {
                old(self).shown()
            }),
    {
        let k: usize = self.position(id);
        if k < self.overlays.len() {
            proof {
                seqs::count_where_remove(self.overlays@, modal(), k as int);
                seqs::count_where_remove(self.overlays@, plain(), k as int);
            }
            Some(self.overlays.remove(k))
        } else {
            None
        }
    }

    /// The first overlay with the handle.
    #[must_use]
    pub fn get(&self, id: u64) -> (r: Option<&Overlay>)
        ensures
            match r {
                Some(o) => seqs::find_where(self.shown(), with_handle(id)) == Some(*o),
                None => seqs::find_where(self.shown(), with_handle(id)) is None,
            },
    {
        let k: usize = self.position(id);
        if k < self.overlays.len() {
            Some(&self.overlays[k])
        } else {
            None
        }
    }

    /// The overlays in order of creation.
    pub fn overlays(&self) -> (s: &[Overlay])
        ensures
            s@ == self.shown(),
    {
        self.overlays.as_slice()
    }

    /// Removes every overlay; handles go on where they were.
    pub fn clear(&mut self)
        requires
            old(self).wf(),
        ensures
            final(self).wf(),
            final(self).counts_up(),
            final(self).shown() == Seq::<Overlay>::empty(),
            final(self).upcoming() == old(self).upcoming(),
    {
        self.overlays.clear();
    }
}

impl Default for OverlayManager {
    fn default() -> (m: Self)
        ensures
            m.wf(),
            m.counts_up(),
            m.shown() == Seq::<Overlay>::empty(),
            m.upcoming() == 1,
    {
        Self::new()
    }
}

impl Clone for OverlayManager {
    fn clone(&self) -> (m: Self)
        ensures
            m.shown() == self.shown(),
            m.upcoming() == self.upcoming(),
    {
        let mut overlays: Vec<Overlay> = Vec::new();
        while overlays.len() < self.overlays.len()
            invariant
                overlays@.len() <= self.overlays@.len(),
                forall|i: int| 0 <= i < overlays@.len() ==> overlays@[i] == self.overlays@[i],
            decreases self.overlays.len() - overlays.len(),
        {
            let i: usize = overlays.len();
            overlays.push(self.overlays[i].clone());
        }
        assert(overlays@ =~= self.overlays@);
        Self { overlays, next_id: self.next_id }
    }
}

/// As long as the handles count up, no two overlays share one.
pub proof fn handles_name_one_overlay(manager: OverlayManager, i: int, j: int)
    requires
        manager.counts_up(),
        0 <= i < manager.shown().len(),
        0 <= j < manager.shown().len(),
        i != j,
    ensures
        manager.shown()[i].id != manager.shown()[j].id,
{
    if i < j {
        assert(manager.shown()[i].id < manager.shown()[j].id);
    } else {
        assert(manager.shown()[j].id < manager.shown()[i].id);
    }
}

/// A window with four overlays beside no modal one takes a modal one and
/// nothing else; with the modal one it takes none.
pub proof fn four_and_a_modal_fill_a_window(shown: Seq<Overlay>, kind: OverlayKind)
    requires
        seqs::count_where(shown, plain()) == MAX_OVERLAYS_PER_WINDOW,
    ensures
        overlay_fault(shown, kind) is None <==> kind == OverlayKind::Modal && seqs::count_where(
            shown,
            modal(),
        ) == 0,
{
}

/// Refusal of an overlay.
#[derive(Debug, Clone, Copy, PartialEq, Eq, Structural)]
pub enum OverlayError {
    /// A modal overlay is already shown.
    OverlayBusy,
    /// The bound is reached.
    TooManyOverlays { max: usize, current: usize },
}

impl OverlayError {
    /// The message of the error.
    pub open spec fn spelled(self) -> Seq<char> {
        match self {
            OverlayError::OverlayBusy => "modal overlay already active (OverlayBusy)"@,
            OverlayError::TooManyOverlays { max, current } => "too many overlays: max "@
                + text::decimal(max as nat) + ", current "@ + text::decimal(current as nat),
        }
    }

    /// Spells the error.
    #[must_use]
    pub fn text(&self) -> (out: String)
        ensures
            out@ == self.spelled(),
    {
        match self {
            Self::OverlayBusy => "modal overlay already active (OverlayBusy)".to_owned(),
            Self::TooManyOverlays { max, current } => text::ending_numbers(
                "too many overlays: max ",
                *max as u64,
                ", current ",
                *current as u64,
            ),
        }
    }
}

/// A text that is too long keeps its first characters, as many as fit: 128 of an
/// overlay and 256 of a tooltip, and the overlay says that something was cut.
pub proof fn long_texts_keep_their_head(
    o: Overlay,
    id: u64,
    kind: OverlayKind,
    bounds: Rect,
    text: Seq<char>,
    tip: Option<Seq<char>>,
    generation: u64,
)
    requires
        o.shows(id, kind, bounds, text, tip, generation),
    ensures
        o.text@.len() <= 128,
        o.text@ == text.take(o.text@.len() as int),
        o.text@.len() < text.len() ==> o.text@.len() == 128,
        tip is None <==> o.tooltip is None,
        match (tip, o.tooltip) {
            (Some(t), Some(s)) => s@.len() <= 256 && s@ == t.take(s@.len() as int) && (s@.len()
                < t.len() ==> s@.len() == 256),
            _ => true,
        },
        o.truncated <==> text.len() > 128 || (tip matches Some(t) && t.len() > 256),
        o.id == id && o.kind == kind && o.bounds == bounds && o.generation == generation,
{
    assert(text.take(text.len() as int) =~= text);
    match tip {
        Some(t) => {
            assert(t.take(t.len() as int) =~= t);
        },
        None => {},
    }
}

/// A window shows one modal overlay and four others. A second modal is told that
/// the window is busy, a fifth other one that there are too many.
pub proof fn windows_fill_up(shown: Seq<Overlay>, kind: OverlayKind)
    ensures
        ({
            let modals = shown.filter(|o: Overlay| o.kind == OverlayKind::Modal).len();
            let others = shown.filter(|o: Overlay| o.kind != OverlayKind::Modal).len();
            &&& kind == OverlayKind::Modal ==> overlay_fault(shown, kind) == (if modals >= 1 {
                Some(OverlayError::OverlayBusy)
            } else {
                None
            })
            &&& kind != OverlayKind::Modal && others < 4 ==> overlay_fault(shown, kind) is None
            &&& kind != OverlayKind::Modal && others >= 4 ==> overlay_fault(shown, kind) == Some(
                OverlayError::TooManyOverlays { max: 4, current: others as usize },
            )
        }),
{
    seqs::keeping_filters(shown, modal());
    seqs::keeping_filters(shown, plain());
    assert(modal() =~= (|o: Overlay| o.kind == OverlayKind::Modal));
    assert(plain() =~= (|o: Overlay| o.kind != OverlayKind::Modal));
}

} // verus!
