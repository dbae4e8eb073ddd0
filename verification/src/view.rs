//! Leaf views: identity, viewport size, allocation origin and display mode.

use crate::geometry::{Point, Rect};
use crate::presentation::PresentationMode;
use crate::text;
use vstd::prelude::*;

verus! {

/// Stable handle of a leaf view.
#[derive(Debug, Clone, Copy, PartialEq, Eq, Structural, Hash, PartialOrd, Ord)]
pub struct ViewId(pub u64);

impl ViewId {
    /// Creates an id from a raw value.
    #[must_use]
    pub fn new(raw: u64) -> (id: Self)
        ensures
            id == ViewId(raw),
    {
        Self(raw)
    }

    /// Returns the raw value.
    #[must_use]
    pub fn get(self) -> (raw: u64)
        ensures
            raw == self.0,
    {
        self.0
    }

    /// The spelling `ViewId(<raw>)`.
    pub open spec fn spelled(self) -> Seq<char> {
        "ViewId("@ + text::decimal(self.0 as nat) + ")"@
    }

    /// Spells the id for messages.
    #[must_use]
    pub fn text(self) -> (out: String)
        ensures
            out@ == self.spelled(),
    {
        text::tagged_number("ViewId(", self.0, ")")
    }
}

/// Viewport of one layout leaf.
#[derive(Debug, Clone, Copy, PartialEq, Eq, Structural)]
pub struct LeafView {
    id: ViewId,
    cols: usize,
    rows: usize,
    origin: Point,
    presentation: PresentationMode,
}

impl LeafView {
    /// Smallest width of a floating leaf in cells.
    pub const MIN_COLS: u16 = 1;

    /// Smallest height of a floating leaf in cells.
    pub const MIN_ROWS: u16 = 1;

    /// The identity of the view.
    pub closed spec fn key(self) -> ViewId {
        self.id
    }

    /// The width in columns.
    pub closed spec fn columns(self) -> usize {
        self.cols
    }

    /// The height in rows.
    pub closed spec fn lines(self) -> usize {
        self.rows
    }

    /// The top-left cell of the last allocation.
    pub closed spec fn corner(self) -> Point {
        self.origin
    }

    /// The requested display mode.
    pub closed spec fn mode(self) -> PresentationMode {
        self.presentation
    }

    /// The view with the given parts.
    pub closed spec fn of(
        id: ViewId,
        cols: usize,
        rows: usize,
        origin: Point,
        mode: PresentationMode,
    ) -> LeafView {
        LeafView { id, cols, rows, origin, presentation: mode }
    }

    /// The same view sized and placed as `rect`.
    pub open spec fn placed(self, rect: Rect) -> LeafView {
        LeafView::of(
            self.key(),
            rect.width as usize,
            rect.height as usize,
            Point { x: rect.x, y: rect.y },
            self.mode(),
        )
    }

    /// The same view in another display mode.
    pub open spec fn displayed(self, mode: PresentationMode) -> LeafView {
        LeafView::of(self.key(), self.columns(), self.lines(), self.corner(), mode)
    }

    /// A view is determined by its parts, and [`LeafView::of`] gives each
    /// part back.
    pub broadcast proof fn parts_of(
        id: ViewId,
        cols: usize,
        rows: usize,
        origin: Point,
        mode: PresentationMode,
    )
        ensures
            (#[trigger] LeafView::of(id, cols, rows, origin, mode)).key() == id,
            LeafView::of(id, cols, rows, origin, mode).columns() == cols,
            LeafView::of(id, cols, rows, origin, mode).lines() == rows,
            LeafView::of(id, cols, rows, origin, mode).corner() == origin,
            LeafView::of(id, cols, rows, origin, mode).mode() == mode,
    {
    }

    /// A view that was never placed: origin at the top left, tiled.
    #[must_use]
    pub fn new(id: ViewId, cols: usize, rows: usize) -> (v: Self)
        ensures
            v == LeafView::of(id, cols, rows, Point { x: 0, y: 0 }, PresentationMode::Tiled),
    {
        Self { id, cols, rows, origin: Point { x: 0, y: 0 }, presentation: PresentationMode::Tiled }
    }

    /// The identity of the view.
    #[must_use]
    pub fn id(&self) -> (id: ViewId)
        ensures
            id == self.key(),
    {
        self.id
    }

    /// Width in columns.
    #[must_use]
    pub fn cols(&self) -> (n: usize)
        ensures
            n == self.columns(),
    {
        self.cols
    }

    /// Height in rows.
    #[must_use]
    pub fn rows(&self) -> (n: usize)
        ensures
            n == self.lines(),
    {
        self.rows
    }

    /// Top-left cell of the last allocation.
    #[must_use]
    pub fn origin(&self) -> (p: Point)
        ensures
            p == self.corner(),
    {
        self.origin
    }

    /// Requested display mode.
    #[must_use]
    pub fn presentation(&self) -> (m: PresentationMode)
        ensures
            m == self.mode(),
    {
        self.presentation
    }

    /// Stamps a display mode.
    pub fn set_presentation(&mut self, mode: PresentationMode)
        ensures
            *final(self) == old(self).displayed(mode),
    {
        self.presentation = mode;
    }

    /// Takes the size and origin of `rect`.
    pub fn reflow_to_rect(&mut self, rect: Rect)
        ensures
            *final(self) == old(self).placed(rect),
    {
        self.cols = rect.width as usize;
        self.rows = rect.height as usize;
        self.origin = Point { x: rect.x, y: rect.y };
    }
}

} // verus!
