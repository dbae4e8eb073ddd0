//! Owned geometry primitives for the layout algebra.
//!
//! All types are integer cell coordinates with a top-left origin. Arithmetic
//! is saturating or widened, so every operation is total.

use vstd::prelude::*;

verus! {

/// `n` cut down to the largest cell coordinate.
pub open spec fn saturate16(n: int) -> int {
    if n > 65535 {
        65535
    } else {
        n
    }
}

/// The smaller of two integers.
pub open spec fn min_int(a: int, b: int) -> int {
    if a <= b {
        a
    } else {
        b
    }
}

/// The larger of two integers.
pub open spec fn max_int(a: int, b: int) -> int {
    if a >= b {
        a
    } else {
        b
    }
}

/// `n` moved into `[low, high]`.
pub open spec fn clamp_int(n: int, low: int, high: int) -> int {
    if n < low {
        low
    } else if n > high {
        high
    } else {
        n
    }
}

/// The number of cells that two half-open spans share.
pub open spec fn overlap(a_start: int, a_len: int, b_start: int, b_len: int) -> int {
    max_int(min_int(a_start + a_len, b_start + b_len) - max_int(a_start, b_start), 0)
}

/// Cell offset within a container.
#[derive(Debug, Clone, Copy, PartialEq, Eq, Structural, Hash, Default)]
pub struct Point {
    /// Column.
    pub x: u16,
    /// Row.
    pub y: u16,
}

impl Point {
    /// Creates a point.
    #[must_use]
    pub fn new(x: u16, y: u16) -> (p: Self)
        ensures
            p == (Point { x, y }),
    {
        Self { x, y }
    }
}

/// Cell extent (width x height).
#[derive(Debug, Clone, Copy, PartialEq, Eq, Structural, Hash, Default)]
pub struct Size {
    /// Width in cells.
    pub width: u16,
    /// Height in cells.
    pub height: u16,
}

impl Size {
    /// Creates a size. Zero spans are allowed (empty allocation).
    #[must_use]
    pub fn new(width: u16, height: u16) -> (s: Self)
        ensures
            s == (Size { width, height }),
    {
        Self { width, height }
    }

    /// True when either dimension is zero.
    #[must_use]
    pub fn is_empty(self) -> (empty: bool)
        ensures
            empty == (self.width == 0 || self.height == 0),
    {
        self.width == 0 || self.height == 0
    }
}

/// Axis-aligned rectangle in cell coordinates, top-left origin.
#[derive(Debug, Clone, Copy, PartialEq, Eq, Structural, Hash, Default)]
pub struct Rect {
    /// Left column.
    pub x: u16,
    /// Top row.
    pub y: u16,
    /// Width in cells.
    pub width: u16,
    /// Height in cells.
    pub height: u16,
}

/// The zero rectangle.
pub open spec fn zero_rect() -> Rect {
    Rect { x: 0, y: 0, width: 0, height: 0 }
}

impl Rect {
    /// The column just right of the rectangle.
    pub open spec fn right_edge(self) -> int {
        self.x + self.width
    }

    /// The row just below the rectangle.
    pub open spec fn bottom_edge(self) -> int {
        self.y + self.height
    }

    /// No cell lies inside.
    pub open spec fn vacant(self) -> bool {
        self.width == 0 || self.height == 0
    }

    /// The cell in column `cx` and row `cy` lies inside.
    pub open spec fn covers(self, cx: int, cy: int) -> bool {
        self.x <= cx < self.right_edge() && self.y <= cy < self.bottom_edge()
    }

    /// `other` lies within the edges of `self`; an empty `other` only has to
    /// have its corner within them.
    pub open spec fn encloses(self, other: Rect) -> bool {
        if other.vacant() {
            self.x <= other.x <= self.right_edge() && self.y <= other.y <= self.bottom_edge()
        } else {
            self.x <= other.x && self.y <= other.y && other.right_edge() <= self.right_edge()
                && other.bottom_edge() <= self.bottom_edge()
        }
    }

    /// The rectangle of the cells that `self` and `other` share, or `None`
    /// when they share no cell.
    pub open spec fn common(self, other: Rect) -> Option<Rect> {
        let x1 = max_int(self.x as int, other.x as int);
        let y1 = max_int(self.y as int, other.y as int);
        let x2 = min_int(self.right_edge(), other.right_edge());
        let y2 = min_int(self.bottom_edge(), other.bottom_edge());
        if self.vacant() || other.vacant() || x2 <= x1 || y2 <= y1 {
            None
        } else {
            Some(
                Rect {
                    x: x1 as u16,
                    y: y1 as u16,
                    width: (x2 - x1) as u16,
                    height: (y2 - y1) as u16,
                },
            )
        }
    }

    /// Builds a rectangle.
    #[must_use]
    pub fn new(x: u16, y: u16, width: u16, height: u16) -> (r: Self)
        ensures
            r == (Rect { x, y, width, height }),
    {
        Self { x, y, width, height }
    }

    /// Zero rectangle.
    #[must_use]
    pub fn zero() -> (r: Self)
        ensures
            r == zero_rect(),
    {
        Self { x: 0, y: 0, width: 0, height: 0 }
    }

    /// Right exclusive edge, widened so that it never overflows.
    #[must_use]
    pub fn right(self) -> (edge: u32)
        ensures
            edge == self.right_edge(),
    {
        self.x as u32 + self.width as u32
    }

    /// Bottom exclusive edge, widened so that it never overflows.
    #[must_use]
    pub fn bottom(self) -> (edge: u32)
        ensures
            edge == self.bottom_edge(),
    {
        self.y as u32 + self.height as u32
    }

    /// True when width or height is zero.
    #[must_use]
    pub fn is_empty(self) -> (empty: bool)
        ensures
            empty == self.vacant(),
    {
        self.width == 0 || self.height == 0
    }

    /// True when `other` lies fully inside `self`; an empty `other` only needs
    /// its corner inside the edges.
    #[must_use]
    pub fn contains(self, other: Rect) -> (inside: bool)
        ensures
            inside == self.encloses(other),
    {
        if other.is_empty() {
            return other.x >= self.x && other.y >= self.y && (other.x as u32) <= self.right() && (
            other.y as u32) <= self.bottom();
        }
        self.x <= other.x && self.y <= other.y && self.right() >= other.right() && self.bottom()
            >= other.bottom()
    }

    /// True when the cell at `point` lies inside.
    #[must_use]
    pub fn contains_point(self, point: Point) -> (inside: bool)
        ensures
            inside == self.covers(point.x as int, point.y as int),
    {
        self.x <= point.x && self.y <= point.y && (point.x as u32) < self.right() && (
        point.y as u32) < self.bottom()
    }

    /// Intersection by positive area overlap; `None` when disjoint or empty.
    #[must_use]
    pub fn intersection(self, other: Rect) -> (shared: Option<Rect>)
        ensures
            shared == self.common(other),
    {
        if self.is_empty() || other.is_empty() {
            return None;
        }
        let x1: u16 = if self.x >= other.x {
            self.x
        } else {
            other.x
        };
        let y1: u16 = if self.y >= other.y {
            self.y
        } else {
            other.y
        };
        let x2: u32 = if self.right() <= other.right() {
            self.right()
        } else {
            other.right()
        };
        let y2: u32 = if self.bottom() <= other.bottom() {
            self.bottom()
        } else {
            other.bottom()
        };
        if x2 <= x1 as u32 || y2 <= y1 as u32 {
            return None;
        }
        Some(Rect { x: x1, y: y1, width: (x2 - x1 as u32) as u16, height: (y2 - y1 as u32) as u16 })
    }

    /// Whether the two rectangles overlap or touch on both axes.
    #[must_use]
    pub fn touches_or_overlaps(self, other: Rect) -> (touching: bool)
        ensures
            touching == (self.right_edge() >= other.x && other.right_edge() >= self.x
                && self.bottom_edge() >= other.y && other.bottom_edge() >= self.y),
    {
        self.right() >= other.x as u32 && other.right() >= self.x as u32 && self.bottom()
            >= other.y as u32 && other.bottom() >= self.y as u32
    }

    /// Clip to `bounds` by intersection, returning `None` when outside.
    #[must_use]
    pub fn clip_to(self, bounds: Rect) -> (clipped: Option<Rect>)
        ensures
            clipped == self.common(bounds),
    {
        self.intersection(bounds)
    }
}

/// A cell lies in the intersection of two rectangles exactly when it lies in
/// both of them, and there is no intersection exactly when they share no cell.
pub proof fn intersection_holds_the_shared_cells(a: Rect, b: Rect)
    ensures
        match a.common(b) {
            Some(r) => !r.vacant() && forall|cx: int, cy: int|
                #![trigger r.covers(cx, cy)]
                r.covers(cx, cy) == (a.covers(cx, cy) && b.covers(cx, cy)),
            None => forall|cx: int, cy: int|
                #![trigger a.covers(cx, cy), b.covers(cx, cy)]
                !(a.covers(cx, cy) && b.covers(cx, cy)),
        },
{
}

/// The order of two rectangles does not matter to their intersection.
pub proof fn intersection_is_symmetric(a: Rect, b: Rect)
    ensures
        a.common(b) == b.common(a),
{
}

/// A rectangle encloses whatever it clips.
pub proof fn clipping_stays_inside(r: Rect, bounds: Rect)
    ensures
        r.common(bounds) matches Some(c) ==> bounds.encloses(c) && r.encloses(c),
{
}

/// Inner and outer gap widths in cells.
#[derive(Debug, Clone, Copy, PartialEq, Eq, Structural, Hash, Default)]
pub struct Gaps {
    /// Band reserved between the two children of every split.
    pub inner: u16,
    /// Band reserved once along every edge of the container.
    pub outer: u16,
}

/// `bounds` without a band of `band` cells along each edge. A band that
/// reaches the middle leaves an empty rectangle.
pub open spec fn inset(bounds: Rect, band: u16) -> Rect {
    Rect {
        x: saturate16(bounds.x + band) as u16,
        y: saturate16(bounds.y + band) as u16,
        width: max_int(bounds.width - 2 * band, 0) as u16,
        height: max_int(bounds.height - 2 * band, 0) as u16,
    }
}

impl Gaps {
    /// Creates a pair of gap widths.
    #[must_use]
    pub fn new(inner: u16, outer: u16) -> (g: Self)
        ensures
            g == (Gaps { inner, outer }),
    {
        Self { inner, outer }
    }

    /// No gaps.
    #[must_use]
    pub fn zero() -> (g: Self)
        ensures
            g == (Gaps { inner: 0, outer: 0 }),
    {
        Self { inner: 0, outer: 0 }
    }

    /// Removes the outer band from `bounds`.
    #[must_use]
    pub fn inset_outer(self, bounds: Rect) -> (r: Rect)
        ensures
            r == inset(bounds, self.outer),
    {
        let double: u32 = 2 * self.outer as u32;
        let width: u16 = if bounds.width as u32 > double {
            (bounds.width as u32 - double) as u16
        } else {
            0
        };
        let height: u16 = if bounds.height as u32 > double {
            (bounds.height as u32 - double) as u16
        } else {
            0
        };
        Rect {
            x: bounds.x.saturating_add(self.outer),
            y: bounds.y.saturating_add(self.outer),
            width,
            height,
        }
    }
}

/// Removing a zero band changes nothing.
pub proof fn zero_inset_is_identity(bounds: Rect)
    ensures
        inset(bounds, 0) == bounds,
{
}

/// A rectangle covers `width` columns from `x` on and `height` rows from `y` on,
/// and it encloses another one when no edge of that lies beyond its own.
pub proof fn rectangles_are_columns_and_rows(r: Rect, other: Rect, cx: int, cy: int)
    ensures
        r.covers(cx, cy) == (0 <= cx - r.x < r.width && 0 <= cy - r.y < r.height),
        r.vacant() == (r.width == 0 || r.height == 0),
        other.width > 0 && other.height > 0 ==> r.encloses(other) == (r.x <= other.x && r.y
            <= other.y && other.x + other.width <= r.x + r.width && other.y + other.height <= r.y
            + r.height),
        other.width == 0 || other.height == 0 ==> r.encloses(other) == (0 <= other.x - r.x
            <= r.width && 0 <= other.y - r.y <= r.height),
{
}

/// The part that two rectangles share starts where the later one starts and ends
/// where the earlier one ends, on both axes.
pub proof fn intersections_are_the_inner_edges(a: Rect, b: Rect)
    ensures
        match a.common(b) {
            Some(r) => {
                &&& r.x >= a.x && r.x >= b.x && (r.x == a.x || r.x == b.x)
                &&& r.y >= a.y && r.y >= b.y && (r.y == a.y || r.y == b.y)
                &&& r.x + r.width <= a.x + a.width && r.x + r.width <= b.x + b.width
                &&& r.x + r.width == a.x + a.width || r.x + r.width == b.x + b.width
                &&& r.y + r.height <= a.y + a.height && r.y + r.height <= b.y + b.height
                &&& r.y + r.height == a.y + a.height || r.y + r.height == b.y + b.height
                &&& r.width > 0 && r.height > 0
            },
            None => a.width == 0 || a.height == 0 || b.width == 0 || b.height == 0 || a.x + a.width
                <= b.x || b.x + b.width <= a.x || a.y + a.height <= b.y || b.y + b.height <= a.y,
        },
{
}

/// Removing a band moves every edge inward by it. Where opposite bands meet,
/// nothing is left.
pub proof fn bands_move_every_edge(bounds: Rect, band: u16)
    requires
        bounds.x + band <= 65535,
        bounds.y + band <= 65535,
    ensures
        inset(bounds, band).x == bounds.x + band,
        inset(bounds, band).y == bounds.y + band,
        bounds.width >= 2 * band ==> inset(bounds, band).x + inset(bounds, band).width + band
            == bounds.x + bounds.width,
        bounds.height >= 2 * band ==> inset(bounds, band).y + inset(bounds, band).height + band
            == bounds.y + bounds.height,
        bounds.width < 2 * band ==> inset(bounds, band).width == 0,
        bounds.height < 2 * band ==> inset(bounds, band).height == 0,
{
}

/// Two spans share the cells from the later start to the earlier end, and none
/// when one ends before the other starts.
pub proof fn overlaps_count_shared_cells(
    a_start: int,
    a_len: int,
    b_start: int,
    b_len: int,
)
    ensures
        ({
            let n = overlap(a_start, a_len, b_start, b_len);
            &&& n >= 0
            &&& a_start + a_len <= b_start || b_start + b_len <= a_start ==> n == 0
            &&& a_start <= b_start < a_start + a_len <= b_start + b_len ==> n == a_start + a_len
                - b_start
            &&& b_start <= a_start < b_start + b_len <= a_start + a_len ==> n == b_start + b_len
                - a_start
            &&& a_start <= b_start && b_start + b_len <= a_start + a_len && b_len >= 0 ==> n == b_len
            &&& b_start <= a_start && a_start + a_len <= b_start + b_len && a_len >= 0 ==> n == a_len
        }),
{
}

/// Split axis of a layout split.
#[derive(Debug, Clone, Copy, PartialEq, Eq, Structural, Hash)]
pub enum SplitAxis {
    /// Left / right.
    Horizontal,
    /// Top / bottom.
    Vertical,
}

} // verus!
