//! Workspace decoration: gaps, borders and corner radii in pixels, applied
//! after the shape of the layout tree is known.

use crate::float64;
use crate::float64::Float64;
use crate::geometry;
use crate::geometry::{Gaps, Rect, SplitAxis};
use crate::layout::{clip_overlay, split_rect_with_gap, LayoutNode};
use crate::text;
use crate::tree::Tree;
use crate::tree_laws;
use crate::view::ViewId;
use vstd::prelude::*;

verus! {

/// Default inner gap in logical pixels.
pub const DEFAULT_GAPS_IN_PX: u16 = 4;

/// Default outer gap in logical pixels.
pub const DEFAULT_GAPS_OUT_PX: u16 = 6;

/// Default border thickness in logical pixels.
pub const DEFAULT_BORDER_PX: u16 = 2;

/// Default corner radius in logical pixels.
pub const DEFAULT_RADIUS_PX: u16 = 6;

/// Maximum gap in logical pixels.
pub const MAX_GAP_PX: u16 = 32;

/// Maximum border thickness in logical pixels.
pub const MAX_BORDER_PX: u16 = 8;

/// Maximum corner radius in logical pixels.
pub const MAX_RADIUS_PX: u16 = 16;

/// View and workspace decoration in logical pixels.
#[derive(Debug, Clone, Copy, PartialEq, Eq, Structural, Hash)]
pub struct Decoration {
    /// Gap between adjacent views inside one workspace.
    pub gaps_in: u16,
    /// Gap between the tiling area and the window edge.
    pub gaps_out: u16,
    /// Border thickness drawn inside each view frame.
    pub border: u16,
    /// Corner radius for view frames.
    pub radius: u16,
}

impl Default for Decoration {
    fn default() -> (d: Self)
        ensures
            d == (Decoration { gaps_in: 4, gaps_out: 6, border: 2, radius: 6 }),
    {
        Self {
            gaps_in: DEFAULT_GAPS_IN_PX,
            gaps_out: DEFAULT_GAPS_OUT_PX,
            border: DEFAULT_BORDER_PX,
            radius: DEFAULT_RADIUS_PX,
        }
    }
}

impl Decoration {
    /// No decoration at all.
    #[must_use]
    pub fn zero() -> (d: Self)
        ensures
            d == (Decoration { gaps_in: 0, gaps_out: 0, border: 0, radius: 0 }),
    {
        Self { gaps_in: 0, gaps_out: 0, border: 0, radius: 0 }
    }

    /// Safe-mode decoration: a one-pixel border and nothing else.
    #[must_use]
    pub fn safe() -> (d: Self)
        ensures
            d == (Decoration { gaps_in: 0, gaps_out: 0, border: 1, radius: 0 }),
    {
        Self { gaps_in: 0, gaps_out: 0, border: 1, radius: 0 }
    }

    /// Creates decoration from the four logical-pixel values.
    #[must_use]
    pub fn new(gaps_in: u16, gaps_out: u16, border: u16, radius: u16) -> (d: Self)
        ensures
            d == (Decoration { gaps_in, gaps_out, border, radius }),
    {
        Self { gaps_in, gaps_out, border, radius }
    }

    /// The first value that is out of range, in the order gaps_in, gaps_out,
    /// border, radius.
    pub open spec fn violation(self) -> Option<DecorationError> {
        if self.gaps_in > MAX_GAP_PX {
            Some(DecorationError::GapsIn(self.gaps_in))
        } else if self.gaps_out > MAX_GAP_PX {
            Some(DecorationError::GapsOut(self.gaps_out))
        } else if self.border > MAX_BORDER_PX {
            Some(DecorationError::Border(self.border))
        } else if self.radius > MAX_RADIUS_PX {
            Some(DecorationError::Radius(self.radius))
        } else {
            None
        }
    }

    /// Checks the ranges, failing on the first violation.
    pub fn validate(&self) -> (r: Result<(), DecorationError>)
        ensures
            r == (match self.violation() {
                Some(e) => Err(e),
                None => Ok(()),
            }),
    {
        if self.gaps_in > MAX_GAP_PX {
            return Err(DecorationError::GapsIn(self.gaps_in));
        }
        if self.gaps_out > MAX_GAP_PX {
            return Err(DecorationError::GapsOut(self.gaps_out));
        }
        if self.border > MAX_BORDER_PX {
            return Err(DecorationError::Border(self.border));
        }
        if self.radius > MAX_RADIUS_PX {
            return Err(DecorationError::Radius(self.radius));
        }
        Ok(())
    }

    /// True when every property is zero.
    #[must_use]
    pub fn is_zero(self) -> (zero: bool)
        ensures
            zero == (self == Decoration { gaps_in: 0, gaps_out: 0, border: 0, radius: 0 }),
    {
        self.gaps_in == 0 && self.gaps_out == 0 && self.border == 0 && self.radius == 0
    }

    /// The gap component.
    #[must_use]
    pub fn gaps(self) -> (g: Gaps)
        ensures
            g == (Gaps { inner: self.gaps_in, outer: self.gaps_out }),
    {
        Gaps::new(self.gaps_in, self.gaps_out)
    }

    /// The spelling `gaps_in=<n> gaps_out=<n> border=<n> radius=<n>`.
    pub open spec fn spelled(self) -> Seq<char> {
        "gaps_in="@ + text::decimal(self.gaps_in as nat) + " gaps_out="@ + text::decimal(
            self.gaps_out as nat,
        ) + " border="@ + text::decimal(self.border as nat) + " radius="@ + text::decimal(
            self.radius as nat,
        )
    }

    /// Spells the decoration for diagnostics.
    #[must_use]
    pub fn text(self) -> (out: String)
        ensures
            out@ == self.spelled(),
    {
        let mut out = text::tagged_number("gaps_in=", self.gaps_in as u64, " gaps_out=");
        text::push_decimal(&mut out, self.gaps_out as u64);
        text::push_text(&mut out, " border=");
        text::push_decimal(&mut out, self.border as u64);
        text::push_text(&mut out, " radius=");
        text::push_decimal(&mut out, self.radius as u64);
        out
    }
}

/// An out-of-range decoration value.
#[derive(Debug, Clone, Copy, PartialEq, Eq, Structural)]
pub enum DecorationError {
    /// `gaps_in` outside `0..=32`.
    GapsIn(u16),
    /// `gaps_out` outside `0..=32`.
    GapsOut(u16),
    /// `border` outside `0..=8`.
    Border(u16),
    /// `radius` outside `0..=16`.
    Radius(u16),
}

impl DecorationError {
    /// The message of the error.
    pub open spec fn spelled(self) -> Seq<char> {
        match self {
            DecorationError::GapsIn(v) => "decoration.gaps_in "@ + text::decimal(v as nat)
                + " is outside [0, "@ + text::decimal(MAX_GAP_PX as nat) + "]"@,
            DecorationError::GapsOut(v) => "decoration.gaps_out "@ + text::decimal(v as nat)
                + " is outside [0, "@ + text::decimal(MAX_GAP_PX as nat) + "]"@,
            DecorationError::Border(v) => "decoration.border "@ + text::decimal(v as nat)
                + " is outside [0, "@ + text::decimal(MAX_BORDER_PX as nat) + "]"@,
            DecorationError::Radius(v) => "decoration.radius "@ + text::decimal(v as nat)
                + " is outside [0, "@ + text::decimal(MAX_RADIUS_PX as nat) + "]"@,
        }
    }

    /// Spells the error.
    #[must_use]
    pub fn text(self) -> (out: String)
        ensures
            out@ == self.spelled(),
    {
        let middle = " is outside [0, ";
        match self {
            DecorationError::GapsIn(v) => text::tagged_numbers(
                "decoration.gaps_in ",
                v as u64,
                middle,
                MAX_GAP_PX as u64,
                "]",
            ),
            DecorationError::GapsOut(v) => text::tagged_numbers(
                "decoration.gaps_out ",
                v as u64,
                middle,
                MAX_GAP_PX as u64,
                "]",
            ),
            DecorationError::Border(v) => text::tagged_numbers(
                "decoration.border ",
                v as u64,
                middle,
                MAX_BORDER_PX as u64,
                "]",
            ),
            DecorationError::Radius(v) => text::tagged_numbers(
                "decoration.radius ",
                v as u64,
                middle,
                MAX_RADIUS_PX as u64,
                "]",
            ),
        }
    }
}

/// One decorated view frame.
#[derive(Debug, Clone, Copy, PartialEq, Eq, Structural)]
pub struct DecoratedView {
    /// View frame after gaps and before the border inset.
    pub frame: Rect,
    /// Content rectangle inside the border inset.
    pub content: Rect,
    /// Border thickness between `frame` and `content`.
    pub border: u16,
    /// Frame corner radius for clipping.
    pub radius: u16,
}

/// The decorated view of a frame.
pub open spec fn framed(frame: Rect, border: u16, radius: u16) -> DecoratedView {
    DecoratedView { frame, content: geometry::inset(frame, border), border, radius }
}

/// The decorated views of a list of frames.
pub open spec fn framed_all(frames: Seq<(ViewId, Rect)>, border: u16, radius: u16) -> Seq<
    (ViewId, DecoratedView),
> {
    frames.map_values(|f: (ViewId, Rect)| (f.0, framed(f.1, border, radius)))
}

/// Decoration bands per axis in one integer unit.
#[derive(Debug, Clone, Copy, PartialEq, Eq, Structural)]
struct Bands {
    outer_x: u16,
    outer_y: u16,
    inner_x: u16,
    inner_y: u16,
    border: u16,
    radius: u16,
}

/// `rect` without bands of `x` and `y` units along its edges.
pub open spec fn inset_by(rect: Rect, x: u16, y: u16) -> Rect {
    Rect {
        x: geometry::saturate16(rect.x + x) as u16,
        y: geometry::saturate16(rect.y + y) as u16,
        width: geometry::max_int(rect.width - 2 * x, 0) as u16,
        height: geometry::max_int(rect.height - 2 * y, 0) as u16,
    }
}

/// The decorated layout of a tree: the outer bands inset `bounds` once, the
/// inner bands stand at every split, and each frame gets border and radius.
pub open spec fn decorated(
    tree: Tree,
    bounds: Rect,
    outer: (u16, u16),
    inner: (u16, u16),
    border: u16,
    radius: u16,
) -> Seq<(ViewId, DecoratedView)> {
    framed_all(
        tree.frames(bounds, inset_by(bounds, outer.0, outer.1), inner.0, inner.1),
        border,
        radius,
    )
}

/// A scaled pixel width plus a number of cells of the given extent, cut off at
/// the largest coordinate.
pub open spec fn band_units(pixels: nat, cells: u16, extent: u16) -> u16 {
    geometry::saturate16(pixels + geometry::saturate16(cells * extent)) as u16
}

/// Insets `rect` by independent horizontal and vertical amounts.
fn inset_axes(rect: Rect, x: u16, y: u16) -> (r: Rect)
    ensures
        r == inset_by(rect, x, y),
{
    let dx: u32 = 2 * x as u32;
    let dy: u32 = 2 * y as u32;
    let width: u16 = if rect.width as u32 > dx {
        (rect.width as u32 - dx) as u16
    } else {
        0
    };
    let height: u16 = if rect.height as u32 > dy {
        (rect.height as u32 - dy) as u16
    } else {
        0
    };
    Rect::new(rect.x.saturating_add(x), rect.y.saturating_add(y), width, height)
}

fn saturating_band(pixels: u16, cells: u16, extent: u16) -> (r: u16)
    ensures
        r == band_units(pixels as nat, cells, extent),
{
    assert(0 <= cells * extent <= 65535 * 65535) by (nonlinear_arith)
        requires
            0 <= cells <= 65535,
            0 <= extent <= 65535,
    ;
    let product: u32 = cells as u32 * extent as u32;
    let cut: u16 = if product > 65535 {
        65535
    } else {
        product as u16
    };
    pixels.saturating_add(cut)
}

/// A logical-pixel value in physical pixels at `scale`. Zero stays zero at
/// every scale.
fn scaled_px(value: u16, scale: Float64) -> (r: u16)
    ensures
        r == float64::scaled_units(value as nat, scale@),
{
    scale.scale_units(value)
}

impl LayoutNode {
    /// Decorated layout in logical pixels: `gaps_out` insets the workspace
    /// area, `gaps_in` stands between siblings at every split, `border` is
    /// drawn inside each frame and `radius` is carried for clipping.
    #[must_use]
    pub fn layout_with_decoration(&self, bounds: Rect, decoration: Decoration) -> (views: Vec<
        (ViewId, DecoratedView),
    >)
        ensures
            views@ == decorated(
                self.tree(),
                bounds,
                (decoration.gaps_out, decoration.gaps_out),
                (decoration.gaps_in, decoration.gaps_in),
                decoration.border,
                decoration.radius,
            ),
    {
        let bands = Bands {
            outer_x: decoration.gaps_out,
            outer_y: decoration.gaps_out,
            inner_x: decoration.gaps_in,
            inner_y: decoration.gaps_in,
            border: decoration.border,
            radius: decoration.radius,
        };
        self.layout_bands(bounds, bands)
    }

    /// Decorated layout in physical pixels: the decoration is scaled and the
    /// cell gaps are converted with the extent of a cell.
    #[must_use]
    pub fn layout_with_decoration_scaled(
        &self,
        bounds: Rect,
        decoration: Decoration,
        scale: Float64,
        cell: (u16, u16),
        gaps: Gaps,
    ) -> (views: Vec<(ViewId, DecoratedView)>)
        ensures
            views@ == ({
                let outer = float64::scaled_units(decoration.gaps_out as nat, scale@);
                let inner = float64::scaled_units(decoration.gaps_in as nat, scale@);
                decorated(
                    self.tree(),
                    bounds,
                    (
                        band_units(outer, gaps.outer, cell.0),
                        band_units(outer, gaps.outer, cell.1),
                    ),
                    (
                        band_units(inner, gaps.inner, cell.0),
                        band_units(inner, gaps.inner, cell.1),
                    ),
                    float64::scaled_units(decoration.border as nat, scale@) as u16,
                    float64::scaled_units(decoration.radius as nat, scale@) as u16,
                )
            }),
    {
        let border: u16 = scaled_px(decoration.border, scale);
        let radius: u16 = scaled_px(decoration.radius, scale);
        let outer: u16 = scaled_px(decoration.gaps_out, scale);
        let inner: u16 = scaled_px(decoration.gaps_in, scale);
        let bands = Bands {
            outer_x: saturating_band(outer, gaps.outer, cell.0),
            outer_y: saturating_band(outer, gaps.outer, cell.1),
            inner_x: saturating_band(inner, gaps.inner, cell.0),
            inner_y: saturating_band(inner, gaps.inner, cell.1),
            border,
            radius,
        };
        self.layout_bands(bounds, bands)
    }

    fn layout_bands(&self, bounds: Rect, bands: Bands) -> (out: Vec<(ViewId, DecoratedView)>)
        ensures
            out@ == decorated(
                self.tree(),
                bounds,
                (bands.outer_x, bands.outer_y),
                (bands.inner_x, bands.inner_y),
                bands.border,
                bands.radius,
            ),
    {
        let area = inset_axes(bounds, bands.outer_x, bands.outer_y);
        let mut out: Vec<(ViewId, DecoratedView)> = Vec::new();
        self.layout_bands_inner(bounds, area, bands, &mut out);
        assert(out@ =~= framed_all(
            self.tree().frames(bounds, area, bands.inner_x, bands.inner_y),
            bands.border,
            bands.radius,
        ));
        out
    }

    fn layout_bands_inner(
        &self,
        container: Rect,
        bounds: Rect,
        bands: Bands,
        out: &mut Vec<(ViewId, DecoratedView)>,
    )
        ensures
            final(out)@ == old(out)@ + framed_all(
                self.tree().frames(container, bounds, bands.inner_x, bands.inner_y),
                bands.border,
                bands.radius,
            ),
        decreases self,
    {
        match self {
            LayoutNode::Leaf(v) => {
                let content = inset_axes(bounds, bands.border, bands.border);
                out.push(
                    (
                        v.id(),
                        DecoratedView {
                            frame: bounds,
                            content,
                            border: bands.border,
                            radius: bands.radius,
                        },
                    ),
                );
                assert(out@ =~= old(out)@ + framed_all(
                    self.tree().frames(container, bounds, bands.inner_x, bands.inner_y),
                    bands.border,
                    bands.radius,
                ));
            },
            LayoutNode::Split { axis, ratio, first, second } => {
                let band: u16 = match axis {
                    SplitAxis::Horizontal => bands.inner_x,
                    SplitAxis::Vertical => bands.inner_y,
                };
                let (a, b) = split_rect_with_gap(bounds, *axis, *ratio, band);
                first.layout_bands_inner(a, a, bands, out);
                second.layout_bands_inner(b, b, bands, out);
                assert(out@ =~= old(out)@ + framed_all(
                    self.tree().frames(container, bounds, bands.inner_x, bands.inner_y),
                    bands.border,
                    bands.radius,
                ));
            },
            LayoutNode::Stack(children) => {
                let mut i: usize = 0;
                while i < children.len()
                    invariant
                        0 <= i <= children.len(),
                        *self == LayoutNode::Stack(*children),
                        out@ == old(out)@ + framed_all(
                            Tree::frames_of(
                                LayoutNode::trees(children@.take(i as int)),
                                container,
                                bounds,
                                bands.inner_x,
                                bands.inner_y,
                            ),
                            bands.border,
                            bands.radius,
                        ),
                    decreases children.len() - i,
                {
                    proof {
                        LayoutNode::lemma_trees_step(children@, i as int);
                        LayoutNode::lemma_child_is_smaller(*self, i as int);
                    }
                    children[i].layout_bands_inner(container, bounds, bands, out);
                    i = i + 1;
                    assert(out@ =~= old(out)@ + framed_all(
                        Tree::frames_of(
                            LayoutNode::trees(children@.take(i as int)),
                            container,
                            bounds,
                            bands.inner_x,
                            bands.inner_y,
                        ),
                        bands.border,
                        bands.radius,
                    ));
                }
                assert(children@.take(i as int) =~= children@);
            },
            LayoutNode::Overlay { base, overlay, bounds: desired, .. } => {
                base.layout_bands_inner(container, bounds, bands, out);
                let clipped = clip_overlay(*desired, container, bounds);
                overlay.layout_bands_inner(clipped, clipped, bands, out);
                assert(out@ =~= old(out)@ + framed_all(
                    self.tree().frames(container, bounds, bands.inner_x, bands.inner_y),
                    bands.border,
                    bands.radius,
                ));
            },
        }
    }
}

/// Without decoration the frames are the slots of the plain solver, and each
/// content fills its frame.
pub proof fn no_decoration_is_the_plain_layout(tree: Tree, bounds: Rect)
    ensures
        decorated(tree, bounds, (0, 0), (0, 0), 0, 0).len() == tree.allocate(bounds, bounds, 0).len(),
        forall|k: int|
            0 <= k < tree.allocate(bounds, bounds, 0).len() ==> #[trigger] decorated(
                tree,
                bounds,
                (0, 0),
                (0, 0),
                0,
                0,
            )[k] == (
                tree.allocate(bounds, bounds, 0)[k].0,
                DecoratedView {
                    frame: tree.allocate(bounds, bounds, 0)[k].1,
                    content: tree.allocate(bounds, bounds, 0)[k].1,
                    border: 0,
                    radius: 0,
                },
            ),
{
    tree_laws::even_bands_are_gaps(tree, bounds, bounds, 0);
    assert(inset_by(bounds, 0, 0) == bounds);
}

/// The frames of a decoration are the slots of the solver with the same gaps.
pub proof fn decoration_gaps_are_gaps(tree: Tree, bounds: Rect, d: Decoration, k: int)
    requires
        0 <= k < tree.allocate(bounds, geometry::inset(bounds, d.gaps_out), d.gaps_in).len(),
    ensures
        decorated(
            tree,
            bounds,
            (d.gaps_out, d.gaps_out),
            (d.gaps_in, d.gaps_in),
            d.border,
            d.radius,
        )[k].1.frame == tree.allocate(bounds, geometry::inset(bounds, d.gaps_out), d.gaps_in)[k].1,
{
    tree_laws::even_bands_are_gaps(tree, bounds, geometry::inset(bounds, d.gaps_out), d.gaps_in);
    assert(inset_by(bounds, d.gaps_out, d.gaps_out) == geometry::inset(bounds, d.gaps_out));
}

/// At scale `1.0` and without cell gaps the scaled bands are the plain ones.
pub proof fn unit_scale_is_the_logical_layout(d: Decoration, cell: (u16, u16))
    ensures
        band_units(
            float64::scaled_units(d.gaps_out as nat, float64::ONE_BITS),
            0,
            cell.0,
        ) == d.gaps_out,
        band_units(
            float64::scaled_units(d.gaps_out as nat, float64::ONE_BITS),
            0,
            cell.1,
        ) == d.gaps_out,
        band_units(
            float64::scaled_units(d.gaps_in as nat, float64::ONE_BITS),
            0,
            cell.0,
        ) == d.gaps_in,
        band_units(
            float64::scaled_units(d.gaps_in as nat, float64::ONE_BITS),
            0,
            cell.1,
        ) == d.gaps_in,
        float64::scaled_units(d.border as nat, float64::ONE_BITS) as u16 == d.border,
        float64::scaled_units(d.radius as nat, float64::ONE_BITS) as u16 == d.radius,
{
    float64::scaling_by_one_is_identity(d.gaps_out);
    float64::scaling_by_one_is_identity(d.gaps_in);
    float64::scaling_by_one_is_identity(d.border);
    float64::scaling_by_one_is_identity(d.radius);
    assert(0 * cell.0 == 0 && 0 * cell.1 == 0);
}

/// Without decoration and with cells of one unit the scaled frames are the slots
/// of the solver with the cell gaps, at every scale.
pub proof fn unit_cells_are_the_gap_layout(tree: Tree, bounds: Rect, gaps: Gaps, k: int)
    requires
        0 <= k < tree.allocate(bounds, geometry::inset(bounds, gaps.outer), gaps.inner).len(),
    ensures
        decorated(
            tree,
            bounds,
            (band_units(0, gaps.outer, 1), band_units(0, gaps.outer, 1)),
            (band_units(0, gaps.inner, 1), band_units(0, gaps.inner, 1)),
            0,
            0,
        )[k].1.frame == tree.allocate(
            bounds,
            geometry::inset(bounds, gaps.outer),
            gaps.inner,
        )[k].1,
{
    assert(band_units(0, gaps.outer, 1) == gaps.outer);
    assert(band_units(0, gaps.inner, 1) == gaps.inner);
    tree_laws::even_bands_are_gaps(
        tree,
        bounds,
        geometry::inset(bounds, gaps.outer),
        gaps.inner,
    );
    assert(inset_by(bounds, gaps.outer, gaps.outer) == geometry::inset(bounds, gaps.outer));
}

/// The content of a decorated view never leaves its frame.
pub proof fn content_stays_in_frame(frame: Rect, border: u16, radius: u16, cx: int, cy: int)
    requires
        framed(frame, border, radius).content.covers(cx, cy),
    ensures
        frame.covers(cx, cy),
{
}

/// The content of a frame lies its border inside on every side, and is empty
/// when the borders meet; the frame itself, the border and the radius stay.
pub proof fn borders_inset_every_side(frame: Rect, border: u16, radius: u16)
    ensures
        ({
            let d = framed(frame, border, radius);
            let c = d.content;
            &&& d.frame == frame && d.border == border && d.radius == radius
            &&& c.x == (if frame.x + border <= 65535 {
                frame.x + border
            } else {
                65535
            })
            &&& c.y == (if frame.y + border <= 65535 {
                frame.y + border
            } else {
                65535
            })
            &&& 2 * border <= frame.width ==> c.width == frame.width - 2 * border
            &&& 2 * border <= frame.height ==> c.height == frame.height - 2 * border
            &&& 2 * border > frame.width ==> c.width == 0
            &&& 2 * border > frame.height ==> c.height == 0
        }),
{
}

/// A decorated layout keeps the outer band clear on every side, with its own
/// width for each direction, and solves the tree in what is left, with its own
/// inner band for each direction; every slot then gets its border.
pub proof fn decorations_band_each_direction(
    tree: Tree,
    bounds: Rect,
    outer: (u16, u16),
    inner: (u16, u16),
    border: u16,
    radius: u16,
    k: int,
)
    ensures
        ({
            let shifted = |at: u16, by: u16|
                (if at + by <= 65535 {
                    at + by
                } else {
                    65535
                }) as u16;
            let shrunk = |size: u16, by: u16|
                (if 2 * by <= size {
                    size - 2 * by
                } else {
                    0
                }) as u16;
            let area = Rect {
                x: shifted(bounds.x, outer.0),
                y: shifted(bounds.y, outer.1),
                width: shrunk(bounds.width, outer.0),
                height: shrunk(bounds.height, outer.1),
            };
            let slots = tree.frames(bounds, area, inner.0, inner.1);
            let out = decorated(tree, bounds, outer, inner, border, radius);
            &&& out.len() == slots.len()
            &&& 0 <= k < slots.len() ==> out[k] == (slots[k].0, framed(slots[k].1, border, radius))
        }),
{
}

/// A band takes its pixels and its cells together, each cell as many units as it
/// is wide, up to 16 bits.
pub proof fn bands_add_pixels_and_cells(pixels: nat, cells: u16, extent: u16)
    ensures
        pixels + cells * extent <= 65535 ==> band_units(pixels, cells, extent) == pixels + cells
            * extent,
        pixels + cells * extent > 65535 ==> band_units(pixels, cells, extent) == 65535,
{
    assert(cells * extent >= 0) by (nonlinear_arith)
        requires
            cells >= 0,
            extent >= 0,
    ;
}

/// A decoration is refused for the first of its measures that is too large: gaps
/// over 32, a border over 8, a radius over 16 pixels.
pub proof fn large_measures_are_refused(d: Decoration)
    ensures
        d.violation() is None <==> d.gaps_in <= 32 && d.gaps_out <= 32 && d.border
            <= 8 && d.radius <= 16,
        match d.violation() {
            Some(DecorationError::GapsIn(v)) => v == d.gaps_in && v > 32,
            Some(DecorationError::GapsOut(v)) => v == d.gaps_out && v > 32 && d.gaps_in
                <= 32,
            Some(DecorationError::Border(v)) => v == d.border && v > 8 && d.gaps_in
                <= 32 && d.gaps_out <= 32,
            Some(DecorationError::Radius(v)) => v == d.radius && v > 16,
            None => true,
        },
{
}

} // verus!
