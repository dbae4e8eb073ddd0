//! Canvas display lists: bounded sequences of drawing commands that a layer
//! retains by node and counts the changes of.

use crate::text;
use crate::uitree::UiNodeId;
use std::collections::BTreeMap;
use vstd::prelude::*;

verus! {

broadcast use vstd::std_specs::btree::group_btree_axioms;

/// Most commands of a display list.
pub const MAX_CANVAS_COMMANDS: usize = 256;

/// Most display lists of a layer.
pub const MAX_CANVAS_SURFACES: usize = 64;

/// Most characters of a text command.
pub const MAX_CANVAS_TEXT_LEN: usize = 512;

/// Largest coordinate, in either direction.
pub const MAX_CANVAS_COORD: i32 = 16_384;

/// Largest radius.
pub const MAX_CANVAS_RADIUS: i32 = 8_192;

/// Refusal of a command, a list or a submission.
#[derive(Debug, Clone, Copy, PartialEq, Eq, Structural, Hash)]
pub enum CanvasError {
    /// The list holds too many commands.
    TooManyCommands {
        /// Commands of the list.
        found: usize,
        /// The bound.
        cap: usize,
    },
    /// The layer holds too many lists.
    TooManySurfaces {
        /// Lists of the layer.
        found: usize,
        /// The bound.
        cap: usize,
    },
    /// A text is too long.
    TextTooLong {
        /// Its characters.
        len: usize,
        /// The bound.
        cap: usize,
    },
    /// A rectangle has a side that is not positive.
    EmptyRect {
        /// Its width.
        w: i32,
        /// Its height.
        h: i32,
    },
    /// A radius is not positive or too large.
    BadRadius {
        /// The radius.
        r: i32,
        /// The bound.
        cap: i32,
    },
    /// A coordinate is too large.
    CoordOutOfRange {
        /// The coordinate.
        value: i32,
        /// The bound.
        bound: i32,
    },
}

impl CanvasError {
    /// The message of the error.
    pub open spec fn spelled(self) -> Seq<char> {
        match self {
            CanvasError::TooManyCommands { found, cap } => "canvas display list too long: "@
                + text::decimal(found as nat) + " commands exceeds cap "@ + text::decimal(
                cap as nat,
            ),
            CanvasError::TooManySurfaces { found, cap } => "canvas layer full: "@ + text::decimal(
                found as nat,
            ) + " surfaces exceeds cap "@ + text::decimal(cap as nat),
            CanvasError::TextTooLong { len, cap } => "canvas text too long: "@ + text::decimal(
                len as nat,
            ) + " chars exceeds cap "@ + text::decimal(cap as nat),
            CanvasError::EmptyRect { w, h } => "canvas rect is empty: w="@ + text::signed_decimal(
                w as int,
            ) + " h="@ + text::signed_decimal(h as int),
            CanvasError::BadRadius { r, cap } => "canvas radius out of range: "@
                + text::signed_decimal(r as int) + " exceeds cap "@ + text::signed_decimal(
                cap as int,
            ),
            CanvasError::CoordOutOfRange { value, bound } => "canvas coordinate out of range: "@
                + text::signed_decimal(value as int) + " exceeds bound "@ + text::signed_decimal(
                bound as int,
            ),
        }
    }

    /// Spells the error.
    #[must_use]
    pub fn text(&self) -> (out: String)
        ensures
            out@ == self.spelled(),
    {
        match self {
            Self::TooManyCommands { found, cap } => text::ending_numbers(
                "canvas display list too long: ",
                *found as u64,
                " commands exceeds cap ",
                *cap as u64,
            ),
            Self::TooManySurfaces { found, cap } => text::ending_numbers(
                "canvas layer full: ",
                *found as u64,
                " surfaces exceeds cap ",
                *cap as u64,
            ),
            Self::TextTooLong { len, cap } => text::ending_numbers(
                "canvas text too long: ",
                *len as u64,
                " chars exceeds cap ",
                *cap as u64,
            ),
            Self::EmptyRect { w, h } => signed_pair("canvas rect is empty: w=", *w, " h=", *h),
            Self::BadRadius { r, cap } => signed_pair(
                "canvas radius out of range: ",
                *r,
                " exceeds cap ",
                *cap,
            ),
            Self::CoordOutOfRange { value, bound } => signed_pair(
                "canvas coordinate out of range: ",
                *value,
                " exceeds bound ",
                *bound,
            ),
        }
    }
}

fn signed_pair(head: &str, a: i32, middle: &str, b: i32) -> (out: String)
    ensures
        out@ == head@ + text::signed_decimal(a as int) + middle@ + text::signed_decimal(b as int),
{
    let mut out = head.to_owned();
    text::push_signed(&mut out, a);
    text::push_text(&mut out, middle);
    text::push_signed(&mut out, b);
    out
}

/// One drawing command, in pixels local to the node.
#[derive(Debug, PartialEq, Eq)]
pub enum CanvasCommand {
    /// Filled rectangle.
    FillRect {
        /// Left edge.
        x: i32,
        /// Top edge.
        y: i32,
        /// Width.
        w: i32,
        /// Height.
        h: i32,
    },
    /// Outlined rectangle.
    StrokeRect {
        /// Left edge.
        x: i32,
        /// Top edge.
        y: i32,
        /// Width.
        w: i32,
        /// Height.
        h: i32,
    },
    /// Segment.
    Line {
        /// Column of the start.
        x0: i32,
        /// Row of the start.
        y0: i32,
        /// Column of the end.
        x1: i32,
        /// Row of the end.
        y1: i32,
    },
    /// Outlined circle.
    Circle {
        /// Column of the center.
        cx: i32,
        /// Row of the center.
        cy: i32,
        /// Radius.
        r: i32,
    },
    /// Text.
    Text {
        /// Left edge.
        x: i32,
        /// Top edge.
        y: i32,
        /// The text.
        body: String,
    },
}

/// What a command draws.
pub enum Drawing {
    /// Filled rectangle.
    FillRect {
        /// Left edge.
        x: i32,
        /// Top edge.
        y: i32,
        /// Width.
        w: i32,
        /// Height.
        h: i32,
    },
    /// Outlined rectangle.
    StrokeRect {
        /// Left edge.
        x: i32,
        /// Top edge.
        y: i32,
        /// Width.
        w: i32,
        /// Height.
        h: i32,
    },
    /// Segment.
    Line {
        /// Column of the start.
        x0: i32,
        /// Row of the start.
        y0: i32,
        /// Column of the end.
        x1: i32,
        /// Row of the end.
        y1: i32,
    },
    /// Outlined circle.
    Circle {
        /// Column of the center.
        cx: i32,
        /// Row of the center.
        cy: i32,
        /// Radius.
        r: i32,
    },
    /// Text.
    Text {
        /// Left edge.
        x: i32,
        /// Top edge.
        y: i32,
        /// The text.
        body: Seq<char>,
    },
}

impl View for CanvasCommand {
    type V = Drawing;

    open spec fn view(&self) -> Drawing {
        match *self {
            CanvasCommand::FillRect { x, y, w, h } => Drawing::FillRect { x, y, w, h },
            CanvasCommand::StrokeRect { x, y, w, h } => Drawing::StrokeRect { x, y, w, h },
            CanvasCommand::Line { x0, y0, x1, y1 } => Drawing::Line { x0, y0, x1, y1 },
            CanvasCommand::Circle { cx, cy, r } => Drawing::Circle { cx, cy, r },
            CanvasCommand::Text { x, y, body } => Drawing::Text { x, y, body: body@ },
        }
    }
}

/// Why a coordinate is refused.
pub open spec fn coord_fault(value: i32) -> Option<CanvasError> {
    if -MAX_CANVAS_COORD <= value <= MAX_CANVAS_COORD {
        None
    } else {
        Some(CanvasError::CoordOutOfRange { value, bound: MAX_CANVAS_COORD })
    }
}

/// The first fault of a list of coordinates.
pub open spec fn coords_fault(values: Seq<i32>) -> Option<CanvasError>
    decreases values.len(),
{
    if values.len() == 0 {
        None
    } else if coord_fault(values[0]) is Some {
        coord_fault(values[0])
    } else {
        coords_fault(values.drop_first())
    }
}

/// Why a rectangle is refused.
pub open spec fn rect_fault(x: i32, y: i32, w: i32, h: i32) -> Option<CanvasError> {
    if coords_fault(seq![x, y, w, h]) is Some {
        coords_fault(seq![x, y, w, h])
    } else if w <= 0 || h <= 0 {
        Some(CanvasError::EmptyRect { w, h })
    } else {
        None
    }
}

/// Why a command is refused.
pub open spec fn command_fault(drawing: Drawing) -> Option<CanvasError> {
    match drawing {
        Drawing::FillRect { x, y, w, h } => rect_fault(x, y, w, h),
        Drawing::StrokeRect { x, y, w, h } => rect_fault(x, y, w, h),
        Drawing::Line { x0, y0, x1, y1 } => coords_fault(seq![x0, y0, x1, y1]),
        Drawing::Circle { cx, cy, r } => if coords_fault(seq![cx, cy]) is Some {
            coords_fault(seq![cx, cy])
        } else if r <= 0 || r > MAX_CANVAS_RADIUS {
            Some(CanvasError::BadRadius { r, cap: MAX_CANVAS_RADIUS })
        } else {
            None
        },
        Drawing::Text { x, y, body } => if coords_fault(seq![x, y]) is Some {
            coords_fault(seq![x, y])
        } else if body.len() > MAX_CANVAS_TEXT_LEN {
            Some(CanvasError::TextTooLong { len: body.len() as usize, cap: MAX_CANVAS_TEXT_LEN })
        } else {
            None
        },
    }
}

fn check_coord(value: i32) -> (r: Result<(), CanvasError>)
    ensures
        r == match coord_fault(value) {
            Some(e) => Err::<(), CanvasError>(e),
            None => Ok(()),
        },
{
    if value < -MAX_CANVAS_COORD || value > MAX_CANVAS_COORD {
        return Err(CanvasError::CoordOutOfRange { value, bound: MAX_CANVAS_COORD });
    }
    Ok(())
}

fn check_two(a: i32, b: i32) -> (r: Result<(), CanvasError>)
    ensures
        r == match coords_fault(seq![a, b]) {
            Some(e) => Err::<(), CanvasError>(e),
            None => Ok(()),
        },
{
    proof {
        reveal_with_fuel(coords_fault, 3);
        assert(seq![a, b].drop_first() =~= seq![b]);
        assert(seq![b].drop_first() =~= Seq::<i32>::empty());
    }
    match check_coord(a) {
        Ok(_) => check_coord(b),
        Err(e) => Err(e),
    }
}

fn check_four(a: i32, b: i32, c: i32, d: i32) -> (r: Result<(), CanvasError>)
    ensures
        r == match coords_fault(seq![a, b, c, d]) {
            Some(e) => Err::<(), CanvasError>(e),
            None => Ok(()),
        },
{
    proof {
        reveal_with_fuel(coords_fault, 3);
        assert(seq![a, b, c, d].drop_first() =~= seq![b, c, d]);
        assert(seq![b, c, d].drop_first() =~= seq![c, d]);
    }
    match check_two(a, b) {
        Ok(_) => check_two(c, d),
        Err(e) => Err(e),
    }
}

fn check_rect(x: i32, y: i32, w: i32, h: i32) -> (r: Result<(), CanvasError>)
    ensures
        r == match rect_fault(x, y, w, h) {
            Some(e) => Err::<(), CanvasError>(e),
            None => Ok(()),
        },
{
    match check_four(x, y, w, h) {
        Ok(_) => if w <= 0 || h <= 0 {
            Err(CanvasError::EmptyRect { w, h })
        } else {
            Ok(())
        },
        Err(e) => Err(e),
    }
}

impl CanvasCommand {
    /// The name of the command.
    pub open spec fn spelled(self) -> Seq<char> {
        match self {
            CanvasCommand::FillRect { .. } => "fill-rect"@,
            CanvasCommand::StrokeRect { .. } => "stroke-rect"@,
            CanvasCommand::Line { .. } => "line"@,
            CanvasCommand::Circle { .. } => "circle"@,
            CanvasCommand::Text { .. } => "text"@,
        }
    }

    /// The name of the command.
    #[must_use]
    pub fn as_str(&self) -> (name: &'static str)
        ensures
            name@ == self.spelled(),
    {
        match self {
            Self::FillRect { .. } => "fill-rect",
            Self::StrokeRect { .. } => "stroke-rect",
            Self::Line { .. } => "line",
            Self::Circle { .. } => "circle",
            Self::Text { .. } => "text",
        }
    }

    /// Checks the bounds of the command.
    pub fn validate(&self) -> (r: Result<(), CanvasError>)
        ensures
            r == match command_fault(self@) {
                Some(e) => Err::<(), CanvasError>(e),
                None => Ok(()),
            },
    {
        match self {
            Self::FillRect { x, y, w, h } => check_rect(*x, *y, *w, *h),
            Self::StrokeRect { x, y, w, h } => check_rect(*x, *y, *w, *h),
            Self::Line { x0, y0, x1, y1 } => check_four(*x0, *y0, *x1, *y1),
            Self::Circle { cx, cy, r } => match check_two(*cx, *cy) {
                Ok(_) => if *r <= 0 || *r > MAX_CANVAS_RADIUS {
                    Err(CanvasError::BadRadius { r: *r, cap: MAX_CANVAS_RADIUS })
                } else {
                    Ok(())
                },
                Err(e) => Err(e),
            },
            Self::Text { x, y, body } => match check_two(*x, *y) {
                Ok(_) => {
                    let len: usize = text::chars_of(body.as_str()).len();
                    if len > MAX_CANVAS_TEXT_LEN {
                        Err(CanvasError::TextTooLong { len, cap: MAX_CANVAS_TEXT_LEN })
                    } else {
                        Ok(())
                    }
                },
                Err(e) => Err(e),
            },
        }
    }

    fn same_as(&self, other: &Self) -> (same: bool)
        ensures
            same == (self@ == other@),
    {
        match (self, other) {
            (Self::FillRect { x, y, w, h }, Self::FillRect { x: a, y: b, w: c, h: d }) => *x == *a
                && *y == *b && *w == *c && *h == *d,
            (Self::StrokeRect { x, y, w, h }, Self::StrokeRect { x: a, y: b, w: c, h: d }) => *x
                == *a && *y == *b && *w == *c && *h == *d,
            (Self::Line { x0, y0, x1, y1 }, Self::Line { x0: a, y0: b, x1: c, y1: d }) => *x0 == *a
                && *y0 == *b && *x1 == *c && *y1 == *d,
            (Self::Circle { cx, cy, r }, Self::Circle { cx: a, cy: b, r: c }) => *cx == *a && *cy
                == *b && *r == *c,
            (Self::Text { x, y, body }, Self::Text { x: a, y: b, body: c }) => *x == *a && *y == *b
                && text::same_text(body.as_str(), c.as_str()),
            _ => false,
        }
    }
}

impl Clone for CanvasCommand {
    fn clone(&self) -> (copy: Self)
        ensures
            copy@ == self@,
    {
        match self {
            Self::FillRect { x, y, w, h } => Self::FillRect { x: *x, y: *y, w: *w, h: *h },
            Self::StrokeRect { x, y, w, h } => Self::StrokeRect { x: *x, y: *y, w: *w, h: *h },
            Self::Line { x0, y0, x1, y1 } => Self::Line { x0: *x0, y0: *y0, x1: *x1, y1: *y1 },
            Self::Circle { cx, cy, r } => Self::Circle { cx: *cx, cy: *cy, r: *r },
            Self::Text { x, y, body } => Self::Text { x: *x, y: *y, body: body.clone() },
        }
    }
}

/// What a run of commands draws.
pub open spec fn drawings_in(commands: Seq<CanvasCommand>) -> Seq<Drawing> {
    Seq::new(commands.len(), |i: int| commands[i]@)
}

/// The first fault of a list of drawings.
pub open spec fn drawings_fault(drawings: Seq<Drawing>, from: int) -> Option<CanvasError>
    decreases drawings.len() - from,
{
    if from >= drawings.len() {
        None
    } else if command_fault(drawings[from]) is Some {
        command_fault(drawings[from])
    } else {
        drawings_fault(drawings, from + 1)
    }
}

/// The commands of one canvas node.
#[derive(Debug, PartialEq, Eq)]
pub struct CanvasDisplayList {
    node: UiNodeId,
    commands: Vec<CanvasCommand>,
}

/// What a display list holds.
#[verifier::ext_equal]
pub struct Drawings {
    /// The node.
    pub node: UiNodeId,
    /// What is drawn, in order.
    pub drawings: Seq<Drawing>,
}

/// Whether a display list keeps its bounds: no command is out of its own, and
/// there are no more of them than may be.
pub open spec fn in_bounds(list: Drawings) -> bool {
    list.drawings.len() <= MAX_CANVAS_COMMANDS && drawings_fault(list.drawings, 0) is None
}

proof fn lemma_drawings(drawings: Seq<Drawing>, more: Drawing, from: int)
    requires
        0 <= from <= drawings.len(),
        drawings_fault(drawings, from) is None,
        command_fault(more) is None,
    ensures
        drawings_fault(drawings.push(more), from) is None,
    decreases drawings.len() - from,
{
    let all = drawings.push(more);
    if from < drawings.len() {
        assert(all[from] == drawings[from]);
        lemma_drawings(drawings, more, from + 1);
    } else {
        assert(all[from] == more);
        assert(drawings_fault(all, from + 1) is None);
    }
}

impl View for CanvasDisplayList {
    type V = Drawings;

    closed spec fn view(&self) -> Drawings {
        Drawings { node: self.node, drawings: drawings_in(self.commands@) }
    }
}

impl CanvasDisplayList {
    /// Creates an empty list for a node.
    #[must_use]
    pub fn new(node: UiNodeId) -> (list: Self)
        ensures
            list@ == (Drawings { node, drawings: Seq::empty() }),
            in_bounds(list@),
    {
        let list = Self { node, commands: Vec::new() };
        assert(list@ =~= Drawings { node, drawings: Seq::empty() });
        list
    }

    /// The node.
    #[must_use]
    pub fn node(&self) -> (node: UiNodeId)
        ensures
            node == self@.node,
    {
        self.node
    }

    /// The commands, in drawing order.
    #[must_use]
    pub fn commands(&self) -> (commands: &[CanvasCommand])
        ensures
            drawings_in(commands@) == self@.drawings,
    {
        self.commands.as_slice()
    }

    /// Number of commands.
    #[must_use]
    pub fn len(&self) -> (n: usize)
        ensures
            n == self@.drawings.len(),
    {
        self.commands.len()
    }

    /// Whether there is no command.
    #[must_use]
    pub fn is_empty(&self) -> (empty: bool)
        ensures
            empty == (self@.drawings.len() == 0),
    {
        self.commands.len() == 0
    }

    /// Appends a command that is within its bounds, if there is room.
    pub fn push(&mut self, command: CanvasCommand) -> (r: Result<(), CanvasError>)
        ensures
            final(self)@.node == old(self)@.node,
            in_bounds(old(self)@) ==> in_bounds(final(self)@),
            if command_fault(command@) is Some {
                r == Err::<(), CanvasError>(command_fault(command@)->0) && final(self)@ == old(
                    self
                )@
            } else if old(self)@.drawings.len() >= MAX_CANVAS_COMMANDS {
                final(self)@ == old(self)@ && r == Err::<(), CanvasError>(
                    CanvasError::TooManyCommands {
                        found: if old(self)@.drawings.len() < usize::MAX {
                            (old(self)@.drawings.len() + 1) as usize
                        } else {
                            usize::MAX
                        },
                        cap: MAX_CANVAS_COMMANDS,
                    },
                )
            } else {
                r is Ok && final(self)@.drawings == old(self)@.drawings.push(command@)
            },
    {
        match command.validate() {
            Ok(_) => {},
            Err(e) => return Err(e),
        }
        if self.commands.len() >= MAX_CANVAS_COMMANDS {
            return Err(
                CanvasError::TooManyCommands {
                    found: self.commands.len().saturating_add(1),
                    cap: MAX_CANVAS_COMMANDS,
                },
            );
        }
        self.commands.push(command);
        proof {
            if in_bounds(old(self)@) {
                lemma_drawings(old(self)@.drawings, command@, 0);
            }
        }
        assert(self@.drawings =~= old(self)@.drawings.push(command@));
        Ok(())
    }

    /// Drops every command.
    pub fn clear(&mut self)
        ensures
            final(self)@ == (Drawings { node: old(self)@.node, drawings: Seq::empty() }),
            in_bounds(final(self)@),
    {
        self.commands.clear();
        assert(self@ =~= Drawings { node: old(self)@.node, drawings: Seq::empty() });
    }

    fn same_as(&self, other: &Self) -> (same: bool)
        ensures
            same == (self@ == other@),
    {
        if self.node != other.node || self.commands.len() != other.commands.len() {
            assert(self@.node != other@.node || self@.drawings.len() != other@.drawings.len());
            return false;
        }
        let mut i: usize = 0;
        while i < self.commands.len()
            invariant
                0 <= i <= self.commands.len(),
                self.node == other.node,
                self.commands.len() == other.commands.len(),
                forall|j: int|
                    0 <= j < i ==> (#[trigger] self@.drawings[j]) == other@.drawings[j],
            decreases self.commands.len() - i,
        {
            if !self.commands[i].same_as(&other.commands[i]) {
                assert(self@.drawings[i as int] != other@.drawings[i as int]);
                return false;
            }
            i = i + 1;
        }
        assert(self@.drawings =~= other@.drawings);
        true
    }
}

impl Clone for CanvasDisplayList {
    fn clone(&self) -> (list: Self)
        ensures
            list@ == self@,
    {
        let mut commands: Vec<CanvasCommand> = Vec::new();
        while commands.len() < self.commands.len()
            invariant
                commands@.len() <= self.commands@.len(),
                forall|i: int|
                    0 <= i < commands@.len() ==> (#[trigger] commands@[i])@ == self.commands@[i]@,
            decreases self.commands.len() - commands.len(),
        {
            let i: usize = commands.len();
            commands.push(self.commands[i].clone());
        }
        let list = Self { node: self.node, commands };
        assert(list@ =~= self@);
        list
    }
}

/// What a submission did.
#[derive(Debug, Clone, Copy, PartialEq, Eq, Structural)]
pub struct CanvasSubmitReport {
    /// The revision after it.
    pub revision: u64,
    /// Whether the list of the node changed.
    pub changed: bool,
}

/// The revision after a change.
pub open spec fn next_revision(revision: u64) -> u64 {
    if revision == u64::MAX {
        0
    } else {
        (revision + 1) as u64
    }
}

/// The display lists of a scene, by node, with a count of their changes.
#[derive(Debug, PartialEq, Eq)]
pub struct CanvasLayer {
    lists: BTreeMap<u64, CanvasDisplayList>,
    revision: u64,
}

/// What a layer holds.
pub struct Retained {
    /// The display list of each node.
    pub lists: Map<u64, Drawings>,
    /// The revision.
    pub revision: u64,
}

spec fn listed(lists: Map<u64, CanvasDisplayList>) -> Map<u64, Drawings> {
    lists.map_values(|list: CanvasDisplayList| list@)
}

impl View for CanvasLayer {
    type V = Retained;

    closed spec fn view(&self) -> Retained {
        Retained { lists: listed(self.lists@), revision: self.revision }
    }
}

/// Why a submission is refused.
pub open spec fn submit_fault(layer: Retained, list: Drawings) -> Option<CanvasError> {
    if drawings_fault(list.drawings, 0) is Some {
        drawings_fault(list.drawings, 0)
    } else if list.drawings.len() > MAX_CANVAS_COMMANDS {
        Some(
            CanvasError::TooManyCommands {
                found: list.drawings.len() as usize,
                cap: MAX_CANVAS_COMMANDS,
            },
        )
    } else if !layer.lists.contains_key(list.node.0) && layer.lists.len() >= MAX_CANVAS_SURFACES {
        Some(
            CanvasError::TooManySurfaces {
                found: (layer.lists.len() + 1) as usize,
                cap: MAX_CANVAS_SURFACES,
            },
        )
    } else {
        None
    }
}

/// Whether the layer holds exactly this list for its node.
pub open spec fn holds(layer: Retained, list: Drawings) -> bool {
    layer.lists.contains_key(list.node.0) && layer.lists[list.node.0] == list
}

/// The layer after a list is accepted.
pub open spec fn submitted(layer: Retained, list: Drawings) -> Retained {
    if holds(layer, list) {
        layer
    } else {
        Retained {
            lists: layer.lists.insert(list.node.0, list),
            revision: next_revision(layer.revision),
        }
    }
}

/// The layer after the list of a node is dropped.
pub open spec fn dropped(layer: Retained, node: UiNodeId) -> Retained {
    if layer.lists.contains_key(node.0) {
        Retained {
            lists: layer.lists.remove(node.0),
            revision: next_revision(layer.revision),
        }
    } else {
        layer
    }
}

impl CanvasLayer {
    /// There are no more lists than the bound, each is that of its node, and
    /// each keeps its bounds.
    pub open spec fn wf(self) -> bool {
        &&& self@.lists.dom().finite()
        &&& self@.lists.len() <= MAX_CANVAS_SURFACES
        &&& forall|n: u64| #[trigger]
            self@.lists.contains_key(n) ==> self@.lists[n].node.0 == n && in_bounds(self@.lists[n])
    }

    /// Creates an empty layer at revision zero.
    #[must_use]
    pub fn new() -> (layer: Self)
        ensures
            layer.wf(),
            layer@ == (Retained { lists: Map::empty(), revision: 0 }),
    {
        let layer = Self { lists: BTreeMap::new(), revision: 0 };
        assert(layer@.lists =~= Map::<u64, Drawings>::empty());
        layer
    }

    /// The revision.
    #[must_use]
    pub fn revision(&self) -> (revision: u64)
        ensures
            revision == self@.revision,
    {
        self.revision
    }

    /// Number of lists.
    #[must_use]
    pub fn len(&self) -> (n: usize)
        ensures
            n == self@.lists.len(),
    {
        assert(listed(self.lists@).dom() =~= self.lists@.dom());
        self.lists.len()
    }

    /// Whether there is no list.
    #[must_use]
    pub fn is_empty(&self) -> (empty: bool)
        ensures
            empty == (self@.lists.len() == 0),
    {
        self.len() == 0
    }

    /// The list of a node.
    #[must_use]
    pub fn get(&self, node: UiNodeId) -> (list: Option<&CanvasDisplayList>)
        ensures
            match list {
                Some(list) => self@.lists.contains_key(node.0) && self@.lists[node.0] == list@,
                None => !self@.lists.contains_key(node.0),
            },
    {
        self.lists.get(&node.0)
    }

    /// Retains a list for its node. A list out of bounds is refused and changes
    /// nothing; the list that is retained already changes nothing either.
    pub fn submit(&mut self, list: CanvasDisplayList) -> (r: Result<
        CanvasSubmitReport,
        CanvasError,
    >)
        requires
            old(self).wf(),
        ensures
            final(self).wf(),
            match submit_fault(old(self)@, list@) {
                Some(e) => r == Err::<CanvasSubmitReport, CanvasError>(e) && final(self)@ == old(
                    self
                )@,
                None => r == Ok::<CanvasSubmitReport, CanvasError>(
                    CanvasSubmitReport {
                        revision: final(self)@.revision,
                        changed: !holds(old(self)@, list@),
                    },
                ) && final(self)@ == submitted(old(self)@, list@),
            },
    {
        self.submit_commands(list.node, list.commands)
    }

    /// Retains commands for a node, checked as [`CanvasLayer::submit`] checks a
    /// list of them.
    pub fn submit_commands(&mut self, node: UiNodeId, commands: Vec<CanvasCommand>) -> (r: Result<
        CanvasSubmitReport,
        CanvasError,
    >)
        requires
            old(self).wf(),
        ensures
            final(self).wf(),
            ({
                let list = Drawings { node, drawings: drawings_in(commands@) };
                match submit_fault(old(self)@, list) {
                    Some(e) => r == Err::<CanvasSubmitReport, CanvasError>(e) && final(self)@
                        == old(self)@,
                    None => r == Ok::<CanvasSubmitReport, CanvasError>(
                        CanvasSubmitReport {
                            revision: final(self)@.revision,
                            changed: !holds(old(self)@, list),
                        },
                    ) && final(self)@ == submitted(old(self)@, list),
                }
            }),
    {
        let list = CanvasDisplayList { node, commands };
        let mut i: usize = 0;
        while i < list.commands.len()
            invariant
                0 <= i <= list.commands.len(),
                old(self).wf(),
                *self == *old(self),
                list.node == node,
                list.commands == commands,
                drawings_fault(list@.drawings, 0) == drawings_fault(list@.drawings, i as int),
            decreases list.commands.len() - i,
        {
            assert(list@.drawings[i as int] == list.commands@[i as int]@);
            match list.commands[i].validate() {
                Ok(_) => {},
                Err(e) => return Err(e),
            }
            i = i + 1;
        }
        if list.commands.len() > MAX_CANVAS_COMMANDS {
            return Err(
                CanvasError::TooManyCommands {
                    found: list.commands.len(),
                    cap: MAX_CANVAS_COMMANDS,
                },
            );
        }
        let count: usize = self.len();
        if !self.lists.contains_key(&list.node.0) && count >= MAX_CANVAS_SURFACES {
            return Err(
                CanvasError::TooManySurfaces { found: count + 1, cap: MAX_CANVAS_SURFACES },
            );
        }
        let same = match self.get(list.node) {
            Some(kept) => kept.same_as(&list),
            None => false,
        };
        if same {
            return Ok(CanvasSubmitReport { revision: self.revision, changed: false });
        }
        let ghost shown = list@;
        self.lists.insert(list.node.0, list);
        self.revision = self.revision.wrapping_add(1);
        proof {
            assert(self@.lists =~= old(self)@.lists.insert(node.0, shown));
            assert(self@.lists.dom() =~= old(self)@.lists.dom().insert(node.0));
        }
        Ok(CanvasSubmitReport { revision: self.revision, changed: true })
    }

    /// Drops the list of a node; tells whether there was one.
    pub fn remove(&mut self, node: UiNodeId) -> (removed: bool)
        requires
            old(self).wf(),
        ensures
            final(self).wf(),
            removed == old(self)@.lists.contains_key(node.0),
            final(self)@ == dropped(old(self)@, node),
    {
        let gone = self.lists.remove(&node.0);
        if gone.is_none() {
            assert(self@.lists =~= old(self)@.lists);
            return false;
        }
        self.revision = self.revision.wrapping_add(1);
        proof {
            assert(self@.lists =~= old(self)@.lists.remove(node.0));
            assert(self@.lists.dom() =~= old(self)@.lists.dom().remove(node.0));
        }
        true
    }
}

impl Default for CanvasLayer {
    fn default() -> (layer: Self)
        ensures
            layer.wf(),
            layer@ == (Retained { lists: Map::empty(), revision: 0 }),
    {
        Self::new()
    }
}

impl Clone for CanvasLayer {
    fn clone(&self) -> (layer: Self)
        ensures
            layer@ == self@,
    {
        Self { lists: self.lists.clone(), revision: self.revision }
    }
}

/// Submitting a list twice changes the layer only once.
pub proof fn resubmitting_changes_nothing(layer: Retained, list: Drawings)
    requires
        submit_fault(layer, list) is None,
    ensures
        submit_fault(submitted(layer, list), list) is None,
        holds(submitted(layer, list), list),
        submitted(submitted(layer, list), list) == submitted(layer, list),
{
}

/// An accepted list is found under its node, and the lists of other nodes stay.
pub proof fn submitting_touches_one_node(layer: Retained, list: Drawings, other: u64)
    requires
        submit_fault(layer, list) is None,
    ensures
        submitted(layer, list).lists[list.node.0] == list,
        other != list.node.0 ==> submitted(layer, list).lists.contains_key(other)
            == layer.lists.contains_key(other) && submitted(layer, list).lists[other]
            == layer.lists[other],
{
}

/// The revision moves exactly when the lists change.
pub proof fn revisions_count_changes(layer: Retained, list: Drawings, node: UiNodeId)
    ensures
        submitted(layer, list).revision != layer.revision <==> submitted(layer, list).lists
            != layer.lists,
        dropped(layer, node).revision != layer.revision <==> dropped(layer, node).lists
            != layer.lists,
{
    if !holds(layer, list) {
        let after = submitted(layer, list).lists;
        assert(after.contains_key(list.node.0) && after[list.node.0] == list);
        assert(after != layer.lists);
    }
    if layer.lists.contains_key(node.0) {
        assert(!dropped(layer, node).lists.contains_key(node.0));
        assert(dropped(layer, node).lists != layer.lists);
    }
}

/// A drawing is in bounds when every coordinate of it lies within 16384 of zero,
/// a rectangle has both sides above zero, a radius is between 1 and 8192, and a
/// text has at most 512 characters.
pub proof fn drawings_stay_in_bounds(drawing: Drawing)
    ensures
        ({
            let near = |v: i32| -16384 <= v <= 16384;
            command_fault(drawing) is None <==> match drawing {
                Drawing::FillRect { x, y, w, h } => near(x) && near(y) && near(w) && near(h) && w
                    > 0 && h > 0,
                Drawing::StrokeRect { x, y, w, h } => near(x) && near(y) && near(w) && near(h) && w
                    > 0 && h > 0,
                Drawing::Line { x0, y0, x1, y1 } => near(x0) && near(y0) && near(x1) && near(y1),
                Drawing::Circle { cx, cy, r } => near(cx) && near(cy) && 1 <= r <= 8192,
                Drawing::Text { x, y, body } => near(x) && near(y) && body.len() <= 512,
            }
        }),
{
    match drawing {
        Drawing::FillRect { x, y, w, h } => lemma_four(x, y, w, h),
        Drawing::StrokeRect { x, y, w, h } => lemma_four(x, y, w, h),
        Drawing::Line { x0, y0, x1, y1 } => lemma_four(x0, y0, x1, y1),
        Drawing::Circle { cx, cy, .. } => lemma_two(cx, cy),
        Drawing::Text { x, y, .. } => lemma_two(x, y),
    }
}

proof fn lemma_two(a: i32, b: i32)
    ensures
        coords_fault(seq![a, b]) == (if !(-16384 <= a <= 16384) {
            Some(CanvasError::CoordOutOfRange { value: a, bound: 16384 })
        } else if !(-16384 <= b <= 16384) {
            Some(CanvasError::CoordOutOfRange { value: b, bound: 16384 })
        } else {
            None
        }),
{
    assert(seq![a, b].drop_first() =~= seq![b]);
    assert(seq![b].drop_first() =~= Seq::<i32>::empty());
    reveal_with_fuel(coords_fault, 3);
}

proof fn lemma_four(a: i32, b: i32, c: i32, d: i32)
    ensures
        coords_fault(seq![a, b, c, d]) == (if !(-16384 <= a <= 16384) {
            Some(CanvasError::CoordOutOfRange { value: a, bound: 16384 })
        } else if !(-16384 <= b <= 16384) {
            Some(CanvasError::CoordOutOfRange { value: b, bound: 16384 })
        } else {
            coords_fault(seq![c, d])
        }),
        coords_fault(seq![c, d]) == (if !(-16384 <= c <= 16384) {
            Some(CanvasError::CoordOutOfRange { value: c, bound: 16384 })
        } else if !(-16384 <= d <= 16384) {
            Some(CanvasError::CoordOutOfRange { value: d, bound: 16384 })
        } else {
            None
        }),
{
    lemma_two(c, d);
    assert(seq![a, b, c, d].drop_first() =~= seq![b, c, d]);
    assert(seq![b, c, d].drop_first() =~= seq![c, d]);
    reveal_with_fuel(coords_fault, 3);
}

/// What a refused drawing is told: the first coordinate that is out of range;
/// then a side that is not above zero, a radius out of range or a text too long.
pub proof fn refused_drawings_name_the_fault(drawing: Drawing)
    ensures
        match command_fault(drawing) {
            Some(CanvasError::CoordOutOfRange { value, bound }) => bound == 16384 && !(-16384
                <= value <= 16384),
            Some(CanvasError::EmptyRect { w, h }) => (w <= 0 || h <= 0) && match drawing {
                Drawing::FillRect { w: a, h: b, .. } => a == w && b == h,
                Drawing::StrokeRect { w: a, h: b, .. } => a == w && b == h,
                _ => false,
            },
            Some(CanvasError::BadRadius { r, cap }) => cap == 8192 && !(1 <= r <= 8192) && (
            drawing matches Drawing::Circle { r: a, .. } && a == r),
            Some(CanvasError::TextTooLong { cap, .. }) => cap == 512 && (drawing matches
                Drawing::Text { body, .. } && body.len() > 512),
            Some(_) => false,
            None => true,
        },
{
    match drawing {
        Drawing::FillRect { x, y, w, h } => lemma_four(x, y, w, h),
        Drawing::StrokeRect { x, y, w, h } => lemma_four(x, y, w, h),
        Drawing::Line { x0, y0, x1, y1 } => lemma_four(x0, y0, x1, y1),
        Drawing::Circle { cx, cy, .. } => lemma_two(cx, cy),
        Drawing::Text { x, y, .. } => lemma_two(x, y),
    }
}

/// A list is as faulty as its first faulty drawing from the given position on.
pub proof fn lists_report_their_first_fault(drawings: Seq<Drawing>, from: int, k: int)
    requires
        0 <= from <= k <= drawings.len(),
        forall|j: int| from <= j < k ==> command_fault(#[trigger] drawings[j]) is None,
    ensures
        k < drawings.len() && command_fault(drawings[k]) is Some ==> drawings_fault(drawings, from)
            == command_fault(drawings[k]),
        k == drawings.len() ==> drawings_fault(drawings, from) is None,
    decreases k - from,
{
    if from < k {
        assert(command_fault(drawings[from]) is None);
        lists_report_their_first_fault(drawings, from + 1, k);
    }
}

/// A list is submitted when all of its drawings are in bounds, there are at most
/// 256 of them, and its node is known or fewer than 64 are.
pub proof fn lists_are_submitted_while_there_is_room(layer: Retained, list: Drawings)
    ensures
        submit_fault(layer, list) is None <==> drawings_fault(list.drawings, 0) is None
            && list.drawings.len() <= 256 && (layer.lists.contains_key(list.node.0)
            || layer.lists.len() < 64),
        match submit_fault(layer, list) {
            Some(CanvasError::TooManyCommands { cap, .. }) => drawings_fault(list.drawings, 0)
                is None ==> cap == 256 && list.drawings.len() > 256,
            Some(CanvasError::TooManySurfaces { cap, .. }) => drawings_fault(list.drawings, 0)
                is None ==> cap == 64 && !layer.lists.contains_key(list.node.0)
                && list.drawings.len() <= 256,
            _ => true,
        },
{
}

/// A change counts the revision up by one, and after the highest from zero again.
/// Dropping a node forgets its list and no other.
pub proof fn changes_count_one_revision(layer: Retained, list: Drawings, node: UiNodeId, other: u64)
    ensures
        ({
            let next = if layer.revision < u64::MAX {
                layer.revision + 1
            } else {
                0
            };
            &&& submitted(layer, list).revision == (if layer.lists.contains_key(list.node.0)
                && layer.lists[list.node.0] == list {
                layer.revision as int
            } else {
                next
            })
            &&& dropped(layer, node).revision == (if layer.lists.contains_key(node.0) {
                next
            } else {
                layer.revision as int
            })
            &&& !dropped(layer, node).lists.contains_key(node.0)
            &&& other != node.0 ==> dropped(layer, node).lists.contains_key(other)
                == layer.lists.contains_key(other) && dropped(layer, node).lists[other]
                == layer.lists[other]
        }),
{
}

} // verus!
