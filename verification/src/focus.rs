//! Focus handling: deterministic traversal over the leaves of a layout tree.
//!
//! Linear moves follow depth-first order and wrap around; spatial moves use
//! rectangle adjacency, the largest overlap first, then the smallest id.

use crate::geometry;
use crate::geometry::Rect;
use crate::layout::LayoutNode;
use crate::layout::overlap_len;
use crate::tree::Tree;
use crate::view::ViewId;
use vstd::prelude::*;

verus! {

/// Direction for focus movement.
#[derive(Debug, Clone, Copy, PartialEq, Eq, Structural, Hash)]
pub enum FocusDirection {
    /// Next in depth-first order (wrap).
    Next,
    /// Previous in depth-first order (wrap).
    Prev,
    /// Spatial up (leaf directly above).
    Up,
    /// Spatial down.
    Down,
    /// Spatial left.
    Left,
    /// Spatial right.
    Right,
}

/// Owned focus state pointing at a leaf, if any.
#[derive(Debug, Clone, PartialEq, Eq)]
pub struct Focus {
    focused: Option<ViewId>,
}

impl View for Focus {
    type V = Option<ViewId>;

    closed spec fn view(&self) -> Option<ViewId> {
        self.focused
    }
}

/// Position of the first occurrence of `id`, or the length when absent.
pub open spec fn position_of(ids: Seq<ViewId>, id: ViewId) -> int
    decreases ids.len(),
{
    if ids.len() == 0 {
        0
    } else if ids[0] == id {
        0
    } else {
        1 + position_of(ids.drop_first(), id)
    }
}

/// The view after the focused one in depth-first order, the first one when
/// none of the leaves is focused.
pub open spec fn following(ids: Seq<ViewId>, focused: Option<ViewId>) -> Option<ViewId> {
    if ids.len() == 0 {
        None
    } else {
        match focused {
            Some(f) if ids.contains(f) => if position_of(ids, f) + 1 == ids.len() {
                Some(ids[0])
            } else {
                Some(ids[position_of(ids, f) + 1])
            },
            _ => Some(ids[0]),
        }
    }
}

/// The view before the focused one in depth-first order, the last one when
/// none of the leaves is focused.
pub open spec fn preceding(ids: Seq<ViewId>, focused: Option<ViewId>) -> Option<ViewId> {
    if ids.len() == 0 {
        None
    } else {
        match focused {
            Some(f) if ids.contains(f) => if position_of(ids, f) == 0 {
                Some(ids.last())
            } else {
                Some(ids[position_of(ids, f) - 1])
            },
            _ => Some(ids.last()),
        }
    }
}

/// `rect` touches `cur` on the side that `dir` names.
pub open spec fn abuts(rect: Rect, cur: Rect, dir: FocusDirection) -> bool {
    match dir {
        FocusDirection::Up => rect.bottom_edge() == cur.y,
        FocusDirection::Down => cur.bottom_edge() == rect.y,
        FocusDirection::Left => rect.right_edge() == cur.x,
        FocusDirection::Right => cur.right_edge() == rect.x,
        _ => false,
    }
}

/// The length of the shared edge of two rectangles across `dir`.
pub open spec fn shared_edge(rect: Rect, cur: Rect, dir: FocusDirection) -> int {
    match dir {
        FocusDirection::Up | FocusDirection::Down => geometry::overlap(
            rect.x as int,
            rect.width as int,
            cur.x as int,
            cur.width as int,
        ),
        _ => geometry::overlap(
            rect.y as int,
            rect.height as int,
            cur.y as int,
            cur.height as int,
        ),
    }
}

/// The slot is a neighbor of `cur` in the direction.
pub open spec fn is_neighbor(
    slot: (ViewId, Rect),
    id: ViewId,
    cur: Rect,
    dir: FocusDirection,
) -> bool {
    slot.0 != id && abuts(slot.1, cur, dir) && shared_edge(slot.1, cur, dir) > 0
}

/// Neighbor `a` is preferred to neighbor `b`: the longer shared edge, then the
/// smaller id.
pub open spec fn preferred(
    a: (ViewId, Rect),
    b: (ViewId, Rect),
    cur: Rect,
    dir: FocusDirection,
) -> bool {
    let x = shared_edge(a.1, cur, dir);
    let y = shared_edge(b.1, cur, dir);
    x > y || (x == y && a.0.0 < b.0.0)
}

/// The neighbor that no other neighbor is preferred to, the earlier of equals.
pub open spec fn best_neighbor(
    slots: Seq<(ViewId, Rect)>,
    id: ViewId,
    cur: Rect,
    dir: FocusDirection,
) -> Option<(ViewId, Rect)>
    decreases slots.len(),
{
    if slots.len() == 0 {
        None
    } else {
        let before = best_neighbor(slots.drop_last(), id, cur, dir);
        let last = slots.last();
        if !is_neighbor(last, id, cur, dir) {
            before
        } else {
            match before {
                None => Some(last),
                Some(b) => if preferred(last, b, cur, dir) {
                    Some(last)
                } else {
                    before
                },
            }
        }
    }
}

/// The rectangle of the first slot of a view.
pub open spec fn slot_of(slots: Seq<(ViewId, Rect)>, id: ViewId) -> Option<Rect>
    decreases slots.len(),
{
    if slots.len() == 0 {
        None
    } else if slot_of(slots.drop_last(), id) is Some {
        slot_of(slots.drop_last(), id)
    } else if slots.last().0 == id {
        Some(slots.last().1)
    } else {
        None
    }
}

/// Where focus goes from the focused view in a spatial direction: the best
/// neighbor, the view itself when it has none, and nowhere when the view has
/// no slot.
pub open spec fn spatial_target(
    slots: Seq<(ViewId, Rect)>,
    id: ViewId,
    dir: FocusDirection,
) -> Option<ViewId> {
    match slot_of(slots, id) {
        None => None,
        Some(cur) => match best_neighbor(slots, id, cur, dir) {
            None => Some(id),
            Some(slot) => Some(slot.0),
        },
    }
}

/// Where focus goes in the direction.
pub open spec fn target(
    tree: Tree,
    focused: Option<ViewId>,
    container: Rect,
    dir: FocusDirection,
) -> Option<ViewId> {
    match dir {
        FocusDirection::Next => following(tree.ids(), focused),
        FocusDirection::Prev => preceding(tree.ids(), focused),
        _ => match focused {
            None => following(tree.ids(), focused),
            Some(id) => spatial_target(tree.allocate(container, container, 0), id, dir),
        },
    }
}

/// [`position_of`] names the first occurrence of the id.
pub proof fn position_of_is_first(ids: Seq<ViewId>, id: ViewId)
    ensures
        0 <= position_of(ids, id) <= ids.len(),
        ids.contains(id) == (position_of(ids, id) < ids.len()),
        ids.contains(id) ==> ids[position_of(ids, id)] == id,
        forall|j: int| 0 <= j < position_of(ids, id) ==> ids[j] != id,
    decreases ids.len(),
{
    if ids.len() > 0 && ids[0] != id {
        let rest = ids.drop_first();
        position_of_is_first(rest, id);
        assert forall|j: int| 0 <= j < position_of(ids, id) implies ids[j] != id by {
            if j > 0 {
                assert(ids[j] == rest[j - 1]);
            }
        }
        if ids.contains(id) {
            let k = choose|k: int| 0 <= k < ids.len() && ids[k] == id;
            assert(rest[k - 1] == id);
        }
        if rest.contains(id) {
            let k = choose|k: int| 0 <= k < rest.len() && rest[k] == id;
            assert(ids[k + 1] == id);
        }
    }
}

/// Going forward and then back returns to the same leaf, and so does going
/// back and then forward, when no two leaves share an id.
pub proof fn next_and_prev_undo_each_other(ids: Seq<ViewId>, f: ViewId)
    requires
        ids.no_duplicates(),
        ids.contains(f),
    ensures
        preceding(ids, following(ids, Some(f))) == Some(f),
        following(ids, preceding(ids, Some(f))) == Some(f),
{
    position_of_is_first(ids, f);
    let p = position_of(ids, f);
    let n = ids.len() as int;
    let up = if p + 1 == n {
        0
    } else {
        p + 1
    };
    let down = if p == 0 {
        n - 1
    } else {
        p - 1
    };
    position_of_is_first(ids, ids[up]);
    position_of_is_first(ids, ids[down]);
    assert(position_of(ids, ids[up]) == up);
    assert(position_of(ids, ids[down]) == down);
}

/// The chosen neighbor is a neighbor, no other neighbor is preferred to it,
/// and one is chosen whenever there is one.
pub proof fn best_neighbor_is_best(
    slots: Seq<(ViewId, Rect)>,
    id: ViewId,
    cur: Rect,
    dir: FocusDirection,
)
    ensures
        match best_neighbor(slots, id, cur, dir) {
            Some(b) => slots.contains(b) && is_neighbor(b, id, cur, dir) && forall|k: int|
                0 <= k < slots.len() && is_neighbor(#[trigger] slots[k], id, cur, dir)
                    ==> !preferred(slots[k], b, cur, dir),
            None => forall|k: int|
                0 <= k < slots.len() ==> !is_neighbor(#[trigger] slots[k], id, cur, dir),
        },
    decreases slots.len(),
{
    if slots.len() > 0 {
        let before = slots.drop_last();
        best_neighbor_is_best(before, id, cur, dir);
        assert forall|k: int| 0 <= k < slots.len() - 1 implies slots[k] == before[k] by {}
        match best_neighbor(before, id, cur, dir) {
            Some(b) => {
                let j = choose|j: int| 0 <= j < before.len() && before[j] == b;
                assert(slots[j] == b);
            },
            None => {},
        }
        assert(slots[slots.len() - 1] == slots.last());
    }
}

/// Linear moves go round the leaves in order: forward to the next one and from
/// the last one to the first, backward the other way. Without a focused leaf
/// they start at the first or the last one.
pub proof fn linear_moves_go_round(ids: Seq<ViewId>, i: int, elsewhere: ViewId)
    requires
        0 <= i < ids.len(),
        forall|j: int| 0 <= j < i ==> #[trigger] ids[j] != ids[i],
        !ids.contains(elsewhere),
    ensures
        i + 1 < ids.len() ==> following(ids, Some(ids[i])) == Some(ids[i + 1]),
        i + 1 == ids.len() ==> following(ids, Some(ids[i])) == Some(ids[0]),
        i > 0 ==> preceding(ids, Some(ids[i])) == Some(ids[i - 1]),
        i == 0 ==> preceding(ids, Some(ids[i])) == Some(ids[ids.len() - 1]),
        following(ids, None) == Some(ids[0]),
        following(ids, Some(elsewhere)) == Some(ids[0]),
        preceding(ids, None) == Some(ids[ids.len() - 1]),
        preceding(ids, Some(elsewhere)) == Some(ids[ids.len() - 1]),
        following(Seq::empty(), Some(ids[i])) is None,
        preceding(Seq::empty(), Some(ids[i])) is None,
{
    position_of_is_first(ids, ids[i]);
    let p = position_of(ids, ids[i]);
    assert(p == i) by {
        assert(ids.contains(ids[i]));
        if p < i {
            assert(ids[p] != ids[i]);
        }
    }
}

/// Directions name the moves: forward and back go round the leaves, and the
/// others, with a focused view, look at the slots of the layout without gaps.
pub proof fn directions_name_moves(tree: Tree, focused: ViewId, container: Rect)
    ensures
        target(tree, Some(focused), container, FocusDirection::Next) == following(
            tree.ids(),
            Some(focused),
        ),
        target(tree, Some(focused), container, FocusDirection::Prev) == preceding(
            tree.ids(),
            Some(focused),
        ),
        target(tree, None, container, FocusDirection::Next) == following(tree.ids(), None),
        target(tree, None, container, FocusDirection::Prev) == preceding(tree.ids(), None),
        forall|dir: FocusDirection|
            dir != FocusDirection::Next && dir != FocusDirection::Prev ==> #[trigger] target(
                tree,
                Some(focused),
                container,
                dir,
            ) == spatial_target(tree.allocate(container, container, 0), focused, dir) && target(
                tree,
                None,
                container,
                dir,
            ) == following(tree.ids(), None),
{
}

/// A view that is nowhere leads nowhere.
pub proof fn absent_views_lead_nowhere(
    slots: Seq<(ViewId, Rect)>,
    id: ViewId,
    dir: FocusDirection,
)
    requires
        forall|j: int| 0 <= j < slots.len() ==> (#[trigger] slots[j]).0 != id,
    ensures
        spatial_target(slots, id, dir) is None,
{
    lemma_slot_of(slots, id, slots.len() as int);
}

proof fn lemma_slot_of(slots: Seq<(ViewId, Rect)>, id: ViewId, c: int)
    requires
        0 <= c <= slots.len(),
        forall|j: int| 0 <= j < c ==> (#[trigger] slots[j]).0 != id,
        c < slots.len() ==> slots[c].0 == id,
    ensures
        slot_of(slots, id) == if c < slots.len() {
            Some(slots[c].1)
        } else {
            None
        },
    decreases slots.len(),
{
    if slots.len() > 0 {
        let before = slots.drop_last();
        if c < slots.len() {
            lemma_slot_of(before, id, c);
        } else {
            lemma_slot_of(before, id, c - 1);
        }
    }
}

/// A sideways move from the view in slot `c` goes to a view whose slot abuts on
/// that side and shares rows with it. No other such view shares more rows, and
/// none that shares as many has a smaller id. Without such a view focus stays.
pub proof fn sideways_moves_follow_the_longest_edge(
    slots: Seq<(ViewId, Rect)>,
    c: int,
    right: bool,
)
    requires
        0 <= c < slots.len(),
        forall|j: int| 0 <= j < c ==> (#[trigger] slots[j]).0 != slots[c].0,
    ensures
        ({
            let id = slots[c].0;
            let cur = slots[c].1;
            let dir = if right {
                FocusDirection::Right
            } else {
                FocusDirection::Left
            };
            let abutting = |r: Rect|
                if right {
                    r.x == cur.x + cur.width
                } else {
                    r.x + r.width == cur.x
                };
            let rows = |r: Rect|
                (if r.y + r.height < cur.y + cur.height {
                    r.y + r.height
                } else {
                    cur.y + cur.height
                }) - (if r.y > cur.y {
                    r.y
                } else {
                    cur.y
                });
            let beside = |s: (ViewId, Rect)| s.0 != id && abutting(s.1) && rows(s.1) > 0;
            &&& (forall|j: int| 0 <= j < slots.len() ==> !beside(#[trigger] slots[j]))
                ==> spatial_target(slots, id, dir) == Some(id)
            &&& (exists|j: int| 0 <= j < slots.len() && beside(#[trigger] slots[j])) ==> exists|k: int|
                0 <= k < slots.len() && beside(#[trigger] slots[k]) && spatial_target(
                    slots,
                    id,
                    dir,
                ) == Some(slots[k].0) && forall|j: int|
                    0 <= j < slots.len() && beside(#[trigger] slots[j]) ==> rows(slots[j].1) < rows(
                        slots[k].1,
                    ) || (rows(slots[j].1) == rows(slots[k].1) && slots[k].0.0 <= slots[j].0.0)
        }),
{
    let id = slots[c].0;
    let cur = slots[c].1;
    let dir = if right {
        FocusDirection::Right
    } else {
        FocusDirection::Left
    };
    lemma_slot_of(slots, id, c);
    best_neighbor_is_best(slots, id, cur, dir);
    if let Some(b) = best_neighbor(slots, id, cur, dir) {
        let k = choose|k: int| 0 <= k < slots.len() && slots[k] == b;
        assert(is_neighbor(slots[k], id, cur, dir));
        assert forall|j: int| 0 <= j < slots.len() && is_neighbor(#[trigger] slots[j], id, cur, dir)
            implies !preferred(slots[j], slots[k], cur, dir) by {}
    }
}

/// An upward or downward move from the view in slot `c` goes to a view whose
/// slot abuts on that side and shares columns with it. No other such view shares
/// more columns, and none that shares as many has a smaller id. Without such a
/// view focus stays.
pub proof fn vertical_moves_follow_the_longest_edge(
    slots: Seq<(ViewId, Rect)>,
    c: int,
    down: bool,
)
    requires
        0 <= c < slots.len(),
        forall|j: int| 0 <= j < c ==> (#[trigger] slots[j]).0 != slots[c].0,
    ensures
        ({
            let id = slots[c].0;
            let cur = slots[c].1;
            let dir = if down {
                FocusDirection::Down
            } else {
                FocusDirection::Up
            };
            let abutting = |r: Rect|
                if down {
                    r.y == cur.y + cur.height
                } else {
                    r.y + r.height == cur.y
                };
            let columns = |r: Rect|
                (if r.x + r.width < cur.x + cur.width {
                    r.x + r.width
                } else {
                    cur.x + cur.width
                }) - (if r.x > cur.x {
                    r.x
                } else {
                    cur.x
                });
            let beside = |s: (ViewId, Rect)| s.0 != id && abutting(s.1) && columns(s.1) > 0;
            &&& (forall|j: int| 0 <= j < slots.len() ==> !beside(#[trigger] slots[j]))
                ==> spatial_target(slots, id, dir) == Some(id)
            &&& (exists|j: int| 0 <= j < slots.len() && beside(#[trigger] slots[j])) ==> exists|k: int|
                0 <= k < slots.len() && beside(#[trigger] slots[k]) && spatial_target(
                    slots,
                    id,
                    dir,
                ) == Some(slots[k].0) && forall|j: int|
                    0 <= j < slots.len() && beside(#[trigger] slots[j]) ==> columns(slots[j].1)
                        < columns(slots[k].1) || (columns(slots[j].1) == columns(slots[k].1)
                        && slots[k].0.0 <= slots[j].0.0)
        }),
{
    let id = slots[c].0;
    let cur = slots[c].1;
    let dir = if down {
        FocusDirection::Down
    } else {
        FocusDirection::Up
    };
    lemma_slot_of(slots, id, c);
    best_neighbor_is_best(slots, id, cur, dir);
    if let Some(b) = best_neighbor(slots, id, cur, dir) {
        let k = choose|k: int| 0 <= k < slots.len() && slots[k] == b;
        assert(is_neighbor(slots[k], id, cur, dir));
        assert forall|j: int| 0 <= j < slots.len() && is_neighbor(#[trigger] slots[j], id, cur, dir)
            implies !preferred(slots[j], slots[k], cur, dir) by {}
    }
}

fn find_position(ids: &Vec<ViewId>, id: ViewId) -> (p: Option<usize>)
    ensures
        match p {
            Some(i) => i == position_of(ids@, id) && i < ids.len() && ids@.contains(id),
            None => !ids@.contains(id),
        },
{
    proof {
        position_of_is_first(ids@, id);
    }
    let mut i: usize = 0;
    while i < ids.len()
        invariant
            0 <= i <= ids.len(),
            forall|j: int| 0 <= j < i ==> ids@[j] != id,
            ids@.contains(id) == (position_of(ids@, id) < ids.len()),
            ids@.contains(id) ==> ids@[position_of(ids@, id)] == id,
            forall|j: int| 0 <= j < position_of(ids@, id) ==> ids@[j] != id,
            0 <= position_of(ids@, id) <= ids.len(),
        decreases ids.len() - i,
    {
        if ids[i] == id {
            return Some(i);
        }
        i = i + 1;
    }
    None
}

impl Focus {
    /// Creates an unfocused state.
    #[must_use]
    pub fn new() -> (f: Self)
        ensures
            f@ is None,
    {
        Self { focused: None }
    }

    /// Creates a state that focuses the given view.
    #[must_use]
    pub fn with_focus(id: ViewId) -> (f: Self)
        ensures
            f@ == Some(id),
    {
        Self { focused: Some(id) }
    }

    /// Current focus.
    #[must_use]
    pub fn focused(&self) -> (id: Option<ViewId>)
        ensures
            id == self@,
    {
        self.focused
    }

    /// Sets focus to `id` unconditionally.
    pub fn set(&mut self, id: ViewId)
        ensures
            final(self)@ == Some(id),
    {
        self.focused = Some(id);
    }

    /// Clears focus.
    pub fn clear(&mut self)
        ensures
            final(self)@ is None,
    {
        self.focused = None;
    }

    /// True when `id` is focused.
    #[must_use]
    pub fn is_focused(&self, id: ViewId) -> (yes: bool)
        ensures
            yes == (self@ == Some(id)),
    {
        match self.focused {
            Some(f) => f == id,
            None => false,
        }
    }

    /// Focuses the first leaf of `node`, or clears focus when there is none.
    pub fn focus_first(&mut self, node: &LayoutNode) -> (id: Option<ViewId>)
        ensures
            id == (if node.tree().ids().len() > 0 {
                Some(node.tree().ids()[0])
            } else {
                None
            }),
            final(self)@ == id,
    {
        let ids = node.leaf_ids();
        let first = if ids.len() > 0 {
            Some(ids[0])
        } else {
            None
        };
        self.focused = first;
        first
    }

    /// The leaf after the focused one, wrapping around.
    #[must_use]
    pub fn next(&self, node: &LayoutNode) -> (id: Option<ViewId>)
        ensures
            id == following(node.tree().ids(), self@),
    {
        let ids = node.leaf_ids();
        if ids.len() == 0 {
            return None;
        }
        match self.focused {
            None => Some(ids[0]),
            Some(f) => match find_position(&ids, f) {
                None => Some(ids[0]),
                Some(i) => {
                    let n: usize = ids.len();
                    if i + 1 == n {
                        Some(ids[0])
                    } else {
                        Some(ids[i + 1])
                    }
                },
            },
        }
    }

    /// The leaf before the focused one, wrapping around.
    #[must_use]
    pub fn prev(&self, node: &LayoutNode) -> (id: Option<ViewId>)
        ensures
            id == preceding(node.tree().ids(), self@),
    {
        let ids = node.leaf_ids();
        let n: usize = ids.len();
        if n == 0 {
            return None;
        }
        match self.focused {
            None => Some(ids[n - 1]),
            Some(f) => match find_position(&ids, f) {
                None => Some(ids[n - 1]),
                Some(i) => {
                    if i == 0 {
                        Some(ids[n - 1])
                    } else {
                        Some(ids[i - 1])
                    }
                },
            },
        }
    }

    /// Where focus goes in `dir`. Spatial directions use the allocation of
    /// `node` in `container`; without a focus they act as `Next`.
    #[must_use]
    pub fn advance(&self, node: &LayoutNode, container: Rect, dir: FocusDirection) -> (id: Option<
        ViewId,
    >)
        ensures
            id == target(node.tree(), self@, container, dir),
    {
        match dir {
            FocusDirection::Next => self.next(node),
            FocusDirection::Prev => self.prev(node),
            _ => self.spatial(node, container, dir),
        }
    }

    /// Moves focus in `dir` and returns the new focus; focus stays where it
    /// is when there is nowhere to go.
    pub fn move_focus(&mut self, node: &LayoutNode, container: Rect, dir: FocusDirection) -> (id:
        Option<ViewId>)
        ensures
            id == target(node.tree(), old(self)@, container, dir),
            final(self)@ == (if id is Some {
                id
            } else {
                old(self)@
            }),
    {
        let next = self.advance(node, container, dir);
        if let Some(id) = next {
            self.focused = Some(id);
        }
        next
    }

    fn spatial(&self, node: &LayoutNode, container: Rect, dir: FocusDirection) -> (id: Option<
        ViewId,
    >)
        requires
            dir != FocusDirection::Next,
            dir != FocusDirection::Prev,
        ensures
            id == target(node.tree(), self@, container, dir),
    {
        let cur: ViewId = match self.focused {
            Some(f) => f,
            None => {
                return self.next(node);
            },
        };
        let slots = node.layout(container);
        let cur_rect: Rect = match find_slot(&slots, cur) {
            Some(r) => r,
            None => {
                return None;
            },
        };
        let mut best: Option<(ViewId, Rect)> = None;
        let mut i: usize = 0;
        while i < slots.len()
            invariant
                0 <= i <= slots.len(),
                dir != FocusDirection::Next,
                dir != FocusDirection::Prev,
                best == best_neighbor(slots@.take(i as int), cur, cur_rect, dir),
            decreases slots.len() - i,
        {
            let slot: (ViewId, Rect) = slots[i];
            assert(slots@.take(i + 1).drop_last() =~= slots@.take(i as int));
            if slot.0 != cur && touching(slot.1, cur_rect, dir) {
                let edge: u32 = edge_length(slot.1, cur_rect, dir);
                if edge > 0 {
                    let better: bool = match best {
                        None => true,
                        Some(b) => {
                            let other: u32 = edge_length(b.1, cur_rect, dir);
                            edge > other || (edge == other && slot.0.0 < b.0.0)
                        },
                    };
                    if better {
                        best = Some(slot);
                    }
                }
            }
            i = i + 1;
        }
        assert(slots@.take(i as int) =~= slots@);
        match best {
            None => Some(cur),
            Some(b) => Some(b.0),
        }
    }
}

fn find_slot(slots: &Vec<(ViewId, Rect)>, id: ViewId) -> (r: Option<Rect>)
    ensures
        r == slot_of(slots@, id),
{
    let mut i: usize = 0;
    let mut found: Option<Rect> = None;
    while i < slots.len()
        invariant
            0 <= i <= slots.len(),
            found == slot_of(slots@.take(i as int), id),
        decreases slots.len() - i,
    {
        assert(slots@.take(i + 1).drop_last() =~= slots@.take(i as int));
        if found.is_none() && slots[i].0 == id {
            found = Some(slots[i].1);
        }
        i = i + 1;
    }
    assert(slots@.take(i as int) =~= slots@);
    found
}

fn touching(rect: Rect, cur: Rect, dir: FocusDirection) -> (yes: bool)
    ensures
        yes == abuts(rect, cur, dir),
{
    match dir {
        FocusDirection::Up => rect.bottom() == cur.y as u32,
        FocusDirection::Down => cur.bottom() == rect.y as u32,
        FocusDirection::Left => rect.right() == cur.x as u32,
        FocusDirection::Right => cur.right() == rect.x as u32,
        _ => false,
    }
}

fn edge_length(rect: Rect, cur: Rect, dir: FocusDirection) -> (n: u32)
    ensures
        n == shared_edge(rect, cur, dir),
{
    match dir {
        FocusDirection::Up | FocusDirection::Down => overlap_len(
            rect.x as u32,
            rect.width as u32,
            cur.x as u32,
            cur.width as u32,
        ),
        _ => overlap_len(rect.y as u32, rect.height as u32, cur.y as u32, cur.height as u32),
    }
}

impl Default for Focus {
    fn default() -> (f: Self)
        ensures
            f@ is None,
    {
        Self::new()
    }
}

} // verus!
