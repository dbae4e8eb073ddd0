//! The canonical layout providers: a no-op tiler, dwindle, master and grid.

use crate::float32::Float32;
use crate::geometry;
use crate::geometry::{Point, Rect, SplitAxis};
use crate::layout::LayoutNode;
use crate::presentation::PresentationMode;
use crate::provider;
use crate::provider::{LayoutError, LayoutProvider, LogicalRect, ProviderId, ProviderName,
    WorkspaceSnapshot};
use crate::tree;
use crate::tree::Tree;
use crate::tree_laws;
use crate::view::{LeafView, ViewId};
use vstd::arithmetic::div_mod::*;
use vstd::prelude::*;

verus! {

/// Bits of the fixed split ratio of every canonical provider (`0.5`).
pub const DEFAULT_PROVIDER_RATIO_BITS: u32 = 0x3F00_0000;

/// The view for an id: that of the current tree, else a one-cell placeholder.
pub open spec fn seat_view(current: Tree, id: ViewId) -> LeafView {
    match tree::first_view(current.leaves(), id) {
        Some(v) => v,
        None => LeafView::of(id, 1, 1, Point { x: 0, y: 0 }, PresentationMode::Tiled),
    }
}

/// The leaf of a view in a proposal.
pub open spec fn seat(current: Tree, id: ViewId) -> Tree {
    Tree::Leaf(seat_view(current, id))
}

/// The views of a proposal, in order.
pub open spec fn seated(ids: Seq<ViewId>, current: Tree) -> Seq<LeafView> {
    ids.map_values(|id: ViewId| seat_view(current, id))
}

/// An even split.
pub open spec fn halves(axis: SplitAxis, first: Tree, second: Tree) -> Tree {
    Tree::Split {
        axis,
        ratio: DEFAULT_PROVIDER_RATIO_BITS,
        first: Box::new(first),
        second: Box::new(second),
    }
}

/// The views nested into each other along one axis, the first outermost.
pub open spec fn chained(axis: SplitAxis, ids: Seq<ViewId>, current: Tree) -> Tree
    decreases ids.len(),
{
    if ids.len() <= 1 {
        seat(current, ids[0])
    } else {
        halves(axis, seat(current, ids[0]), chained(axis, ids.drop_first(), current))
    }
}

/// The other axis.
pub open spec fn flipped(axis: SplitAxis) -> SplitAxis {
    match axis {
        SplitAxis::Horizontal => SplitAxis::Vertical,
        SplitAxis::Vertical => SplitAxis::Horizontal,
    }
}

/// The views nested into each other with the axis alternating per depth.
pub open spec fn spiraled(axis: SplitAxis, ids: Seq<ViewId>, current: Tree) -> Tree
    decreases ids.len(),
{
    if ids.len() <= 1 {
        seat(current, ids[0])
    } else {
        halves(axis, seat(current, ids[0]), spiraled(flipped(axis), ids.drop_first(), current))
    }
}

/// The first axis in an area: stacked when it is taller than wide.
pub open spec fn opening(area: LogicalRect) -> SplitAxis {
    if area.is_tall() {
        SplitAxis::Vertical
    } else {
        SplitAxis::Horizontal
    }
}

/// One master view on the left, the rest stacked on the right.
pub open spec fn mastered(ids: Seq<ViewId>, current: Tree) -> Tree {
    if ids.len() == 1 {
        seat(current, ids[0])
    } else {
        halves(
            SplitAxis::Horizontal,
            seat(current, ids[0]),
            chained(SplitAxis::Vertical, ids.drop_first(), current),
        )
    }
}

/// The largest number whose square does not exceed `n`.
pub open spec fn square_root(n: nat) -> nat
    decreases n,
{
    if n == 0 {
        0
    } else {
        let r = square_root((n - 1) as nat);
        if (r + 1) * (r + 1) <= n {
            r + 1
        } else {
            r
        }
    }
}

/// The number of rows of a grid: the square root, or for a tall area as many
/// rows of that length as the views need.
pub open spec fn row_count(n: nat, tall: bool) -> nat {
    let base = square_root(n);
    if tall {
        n / base + (if n % base == 0 {
            0nat
        } else {
            1
        })
    } else {
        base
    }
}

/// Where a row starts: rows are balanced, and the longer ones come first.
pub open spec fn row_start(n: nat, rows: nat, r: nat) -> nat {
    r * (n / rows) + (if r <= n % rows {
        r
    } else {
        n % rows
    })
}

/// The views of a row.
pub open spec fn row_of(ids: Seq<ViewId>, rows: nat, r: nat) -> Seq<ViewId> {
    ids.subrange(
        row_start(ids.len(), rows, r) as int,
        row_start(ids.len(), rows, r + 1) as int,
    )
}

/// The rows from `r` on, stacked.
pub open spec fn gridded(ids: Seq<ViewId>, rows: nat, r: nat, current: Tree) -> Tree
    decreases rows - r,
{
    let row = chained(SplitAxis::Horizontal, row_of(ids, rows, r), current);
    if r + 1 >= rows {
        row
    } else {
        halves(SplitAxis::Vertical, row, gridded(ids, rows, r + 1, current))
    }
}

/// The grid of the views.
pub open spec fn grid_tree(ids: Seq<ViewId>, area: LogicalRect, current: Tree) -> Tree {
    gridded(ids, row_count(ids.len(), area.is_tall()), 0, current)
}

/// The square root is the largest number whose square does not exceed `n`.
pub proof fn square_root_is_floor(n: nat)
    ensures
        square_root(n) * square_root(n) <= n,
        n < (square_root(n) + 1) * (square_root(n) + 1),
        square_root(n) <= n,
        n > 0 ==> square_root(n) >= 1,
    decreases n,
{
    let s = square_root(n);
    if n > 0 {
        square_root_is_floor((n - 1) as nat);
        let r = square_root((n - 1) as nat);
        if (r + 1) * (r + 1) <= n {
            assert((s + 1) * (s + 1) > n && s <= s * s) by (nonlinear_arith)
                requires
                    s == r + 1,
                    n - 1 < (r + 1) * (r + 1),
            ;
        } else {
            assert(s * s <= n && n < (s + 1) * (s + 1)) by (nonlinear_arith)
                requires
                    s == r,
                    r * r <= n - 1,
                    (r + 1) * (r + 1) > n,
            ;
            assert(s >= 1) by (nonlinear_arith)
                requires
                    s >= 0,
                    n >= 1,
                    n < (s + 1) * (s + 1),
            ;
        }
    } else {
        assert(s * s == 0 && (s + 1) * (s + 1) == 1) by (nonlinear_arith)
            requires
                s == 0,
        ;
    }
}

proof fn lemma_row_starts(n: nat, rows: nat, r: nat)
    requires
        0 < rows <= n,
        r < rows,
    ensures
        row_start(n, rows, r) < row_start(n, rows, r + 1),
        row_start(n, rows, r + 1) <= n,
        row_start(n, rows, rows) == n,
        row_start(n, rows, r + 1) - row_start(n, rows, r) == n / rows + (if r < n % rows {
            1int
        } else {
            0
        }),
{
    let q = n / rows;
    let e = n % rows;
    lemma_fundamental_div_mod(n as int, rows as int);
    lemma_mod_bound(n as int, rows as int);
    assert(q >= 1) by {
        lemma_div_non_zero(n as int, rows as int);
    }
    assert((r + 1) * q == r * q + q) by (nonlinear_arith);
    assert((r + 1) * q <= rows * q) by (nonlinear_arith)
        requires
            r + 1 <= rows,
    ;
}

fn root_of(n: usize) -> (r: usize)
    requires
        n >= 1,
    ensures
        r == square_root(n as nat),
        1 <= r <= n,
{
    let mut r: usize = 0;
    let mut i: usize = 0;
    while i < n
        invariant
            0 <= i <= n,
            r == square_root(i as nat),
            r <= i,
        decreases n - i,
    {
        proof {
            square_root_is_floor(i as nat);
            square_root_is_floor((i + 1) as nat);
        }
        i = i + 1;
        let next: u128 = r as u128 + 1;
        assert(next * next <= 0xffff_ffff_ffff_ffff_ffff_ffff_ffff_ffff) by (nonlinear_arith)
            requires
                0 <= next <= 0xffff_ffff_ffff_ffff,
        ;
        if next * next <= i as u128 {
            r = r + 1;
        }
    }
    proof {
        square_root_is_floor(n as nat);
    }
    r
}

/// The leaf for an id.
fn leaf_for(snapshot: &WorkspaceSnapshot, id: ViewId) -> (n: LayoutNode)
    ensures
        n.tree() == seat(snapshot.current.tree(), id),
{
    match snapshot.current.find_leaf(id) {
        Some(view) => LayoutNode::leaf(*view),
        None => LayoutNode::leaf(LeafView::new(id, 1, 1)),
    }
}

fn split_halves(axis: SplitAxis, first: LayoutNode, second: LayoutNode) -> (n: LayoutNode)
    ensures
        n.tree() == halves(axis, first.tree(), second.tree()),
{
    LayoutNode::split(axis, Float32::from_bits(DEFAULT_PROVIDER_RATIO_BITS), first, second)
}

/// Chains `ids` into nested splits along `axis`.
#[must_use]
pub fn chain(axis: SplitAxis, ids: &[ViewId], snapshot: &WorkspaceSnapshot) -> (n: LayoutNode)
    requires
        ids@.len() > 0,
    ensures
        n.tree() == chained(axis, ids@, snapshot.current.tree()),
{
    assert(ids@.subrange(0, ids@.len() as int) =~= ids@);
    chain_range(axis, ids, 0, ids.len(), snapshot)
}

fn chain_range(
    axis: SplitAxis,
    ids: &[ViewId],
    from: usize,
    to: usize,
    snapshot: &WorkspaceSnapshot,
) -> (n: LayoutNode)
    requires
        from < to <= ids@.len(),
    ensures
        n.tree() == chained(
            axis,
            ids@.subrange(from as int, to as int),
            snapshot.current.tree(),
        ),
{
    let mut i: usize = to - 1;
    let mut tree = leaf_for(snapshot, ids[i]);
    assert(ids@.subrange(i as int, to as int)[0] == ids@[i as int]);
    while i > from
        invariant
            from <= i < to <= ids@.len(),
            tree.tree() == chained(
                axis,
                ids@.subrange(i as int, to as int),
                snapshot.current.tree(),
            ),
        decreases i,
    {
        i = i - 1;
        proof {
            let run = ids@.subrange(i as int, to as int);
            assert(run.drop_first() =~= ids@.subrange(i + 1, to as int));
            assert(run[0] == ids@[i as int]);
        }
        tree = split_halves(axis, leaf_for(snapshot, ids[i]), tree);
    }
    tree
}

/// The first axis for an area.
fn opening_axis(area: LogicalRect) -> (axis: SplitAxis)
    ensures
        axis == opening(area),
{
    if area.taller_than_wide() {
        SplitAxis::Vertical
    } else {
        SplitAxis::Horizontal
    }
}

/// A name that the canonical providers carry.
fn fixed_name(raw: &'static str) -> (name: ProviderName)
    requires
        provider::name_fault(raw@) is None,
    ensures
        name@ == raw@,
{
    ProviderName::parse(raw).unwrap()
}

/// Built-in no-op tiler: proposes the current tree.
#[derive(Debug, Clone, PartialEq, Eq)]
pub struct NoopTiler {
    name: ProviderName,
}

impl NoopTiler {
    /// The name it carries.
    pub closed spec fn carried(self) -> Seq<char> {
        self.name@
    }

    /// Creates the provider.
    #[must_use]
    pub fn new() -> (p: Self)
        ensures
            p.carried() == "noop"@,
    {
        proof {
            reveal_strlit("noop");
            provider::segments_are_names("noop"@);
        }
        Self { name: fixed_name("noop") }
    }
}

impl Default for NoopTiler {
    fn default() -> (p: Self)
        ensures
            p.carried() == "noop"@,
    {
        Self::new()
    }
}

impl LayoutProvider for NoopTiler {
    open spec fn key(&self) -> ProviderId {
        ProviderId(provider::NOOP_PROVIDER_ID)
    }

    open spec fn label(&self) -> Seq<char> {
        self.carried()
    }

    fn id(&self) -> (id: ProviderId) {
        ProviderId(provider::NOOP_PROVIDER_ID)
    }

    fn name(&self) -> (name: &ProviderName) {
        &self.name
    }

    /// The current tree; an empty view set fails.
    fn propose(&self, workspace: &WorkspaceSnapshot, views: &[ViewId], area: LogicalRect) -> (r:
        Result<LayoutNode, LayoutError>)
        ensures
            match r {
                Ok(n) => views@.len() > 0 && n.tree() == workspace.current.tree(),
                Err(e) => views@.len() == 0 && e == LayoutError::EmptyViewSet,
            },
    {
        if views.len() == 0 {
            return Err(LayoutError::EmptyViewSet);
        }
        Ok(workspace.current.clone())
    }
}

/// Dwindle: splits that spiral inward, the axis alternating per depth.
#[derive(Debug, Clone, PartialEq, Eq)]
pub struct DwindleProvider {
    name: ProviderName,
}

impl DwindleProvider {
    /// The name it carries.
    pub closed spec fn carried(self) -> Seq<char> {
        self.name@
    }

    /// Creates the provider.
    #[must_use]
    pub fn new() -> (p: Self)
        ensures
            p.carried() == "dwindle"@,
    {
        proof {
            reveal_strlit("dwindle");
            provider::segments_are_names("dwindle"@);
        }
        Self { name: fixed_name("dwindle") }
    }
}

impl Default for DwindleProvider {
    fn default() -> (p: Self)
        ensures
            p.carried() == "dwindle"@,
    {
        Self::new()
    }
}

impl LayoutProvider for DwindleProvider {
    open spec fn key(&self) -> ProviderId {
        ProviderId(provider::DWINDLE_PROVIDER_ID)
    }

    open spec fn label(&self) -> Seq<char> {
        self.carried()
    }

    fn id(&self) -> (id: ProviderId) {
        ProviderId(provider::DWINDLE_PROVIDER_ID)
    }

    fn name(&self) -> (name: &ProviderName) {
        &self.name
    }

    /// The spiral of the views, opening along the axis of the area; an empty
    /// view set fails.
    fn propose(&self, workspace: &WorkspaceSnapshot, views: &[ViewId], area: LogicalRect) -> (r:
        Result<LayoutNode, LayoutError>)
        ensures
            match r {
                Ok(n) => views@.len() > 0 && n.tree() == spiraled(
                    opening(area),
                    views@,
                    workspace.current.tree(),
                ),
                Err(e) => views@.len() == 0 && e == LayoutError::EmptyViewSet,
            },
    {
        if views.len() == 0 {
            return Err(LayoutError::EmptyViewSet);
        }
        let open = opening_axis(area);
        let mut i: usize = views.len() - 1;
        let mut tree = leaf_for(workspace, views[i]);
        assert(views@.skip(i as int)[0] == views@[i as int]);
        while i > 0
            invariant
                0 <= i < views@.len(),
                tree.tree() == spiraled(
                    axis_at(open, i as nat),
                    views@.skip(i as int),
                    workspace.current.tree(),
                ),
            decreases i,
        {
            i = i - 1;
            proof {
                let run = views@.skip(i as int);
                assert(run.drop_first() =~= views@.skip(i + 1));
                assert(run[0] == views@[i as int]);
            }
            let axis = if i % 2 == 0 {
                open
            } else {
                match open {
                    SplitAxis::Horizontal => SplitAxis::Vertical,
                    SplitAxis::Vertical => SplitAxis::Horizontal,
                }
            };
            tree = split_halves(axis, leaf_for(workspace, views[i]), tree);
        }
        assert(views@.skip(0) =~= views@);
        Ok(tree)
    }
}

/// The axis of a spiral at the given depth.
pub open spec fn axis_at(open: SplitAxis, depth: nat) -> SplitAxis {
    if depth % 2 == 0 {
        open
    } else {
        flipped(open)
    }
}

/// Master: one view on the left, the others stacked on the right.
#[derive(Debug, Clone, PartialEq, Eq)]
pub struct MasterProvider {
    name: ProviderName,
}

impl MasterProvider {
    /// The name it carries.
    pub closed spec fn carried(self) -> Seq<char> {
        self.name@
    }

    /// Creates the provider.
    #[must_use]
    pub fn new() -> (p: Self)
        ensures
            p.carried() == "master"@,
    {
        proof {
            reveal_strlit("master");
            provider::segments_are_names("master"@);
        }
        Self { name: fixed_name("master") }
    }
}

impl Default for MasterProvider {
    fn default() -> (p: Self)
        ensures
            p.carried() == "master"@,
    {
        Self::new()
    }
}

impl LayoutProvider for MasterProvider {
    open spec fn key(&self) -> ProviderId {
        ProviderId(provider::MASTER_PROVIDER_ID)
    }

    open spec fn label(&self) -> Seq<char> {
        self.carried()
    }

    fn id(&self) -> (id: ProviderId) {
        ProviderId(provider::MASTER_PROVIDER_ID)
    }

    fn name(&self) -> (name: &ProviderName) {
        &self.name
    }

    /// The first view as master; an empty view set fails.
    fn propose(&self, workspace: &WorkspaceSnapshot, views: &[ViewId], area: LogicalRect) -> (r:
        Result<LayoutNode, LayoutError>)
        ensures
            match r {
                Ok(n) => views@.len() > 0 && n.tree() == mastered(
                    views@,
                    workspace.current.tree(),
                ),
                Err(e) => views@.len() == 0 && e == LayoutError::EmptyViewSet,
            },
    {
        if views.len() == 0 {
            return Err(LayoutError::EmptyViewSet);
        }
        let master_leaf = leaf_for(workspace, views[0]);
        if views.len() == 1 {
            return Ok(master_leaf);
        }
        assert(views@.subrange(1, views@.len() as int) =~= views@.drop_first());
        let stack = chain_range(SplitAxis::Vertical, views, 1, views.len(), workspace);
        Ok(split_halves(SplitAxis::Horizontal, master_leaf, stack))
    }
}

/// Grid: balanced rows of views, the longer rows first.
#[derive(Debug, Clone, PartialEq, Eq)]
pub struct GridProvider {
    name: ProviderName,
}

impl GridProvider {
    /// The name it carries.
    pub closed spec fn carried(self) -> Seq<char> {
        self.name@
    }

    /// Creates the provider.
    #[must_use]
    pub fn new() -> (p: Self)
        ensures
            p.carried() == "grid"@,
    {
        proof {
            reveal_strlit("grid");
            provider::segments_are_names("grid"@);
        }
        Self { name: fixed_name("grid") }
    }
}

impl Default for GridProvider {
    fn default() -> (p: Self)
        ensures
            p.carried() == "grid"@,
    {
        Self::new()
    }
}

impl LayoutProvider for GridProvider {
    open spec fn key(&self) -> ProviderId {
        ProviderId(provider::GRID_PROVIDER_ID)
    }

    open spec fn label(&self) -> Seq<char> {
        self.carried()
    }

    fn id(&self) -> (id: ProviderId) {
        ProviderId(provider::GRID_PROVIDER_ID)
    }

    fn name(&self) -> (name: &ProviderName) {
        &self.name
    }

    /// The grid of the views; an empty view set fails.
    fn propose(&self, workspace: &WorkspaceSnapshot, views: &[ViewId], area: LogicalRect) -> (r:
        Result<LayoutNode, LayoutError>)
        ensures
            match r {
                Ok(n) => views@.len() > 0 && n.tree() == grid_tree(
                    views@,
                    area,
                    workspace.current.tree(),
                ),
                Err(e) => views@.len() == 0 && e == LayoutError::EmptyViewSet,
            },
    {
        let n: usize = views.len();
        if n == 0 {
            return Err(LayoutError::EmptyViewSet);
        }
        let base: usize = root_of(n);
        proof {
            lemma_row_count(n as nat, area.is_tall());
        }
        let rows: usize = if area.taller_than_wide() {
            if n % base == 0 {
                n / base
            } else {
                n / base + 1
            }
        } else {
            base
        };
        let per_row: usize = n / rows;
        let extra: usize = n % rows;
        let ghost current = workspace.current.tree();
        let mut r: usize = rows - 1;
        proof {
            lemma_row_starts(n as nat, rows as nat, r as nat);
            assert(row_start(n as nat, rows as nat, rows as nat) == n);
        }
        let mut start: usize = row_begin(n, rows, r, per_row, extra);
        let mut tree = chain_range(SplitAxis::Horizontal, views, start, n, workspace);
        while r > 0
            invariant
                0 <= r < rows <= n,
                n == views@.len(),
                per_row == n as nat / rows as nat,
                extra == n as nat % rows as nat,
                start == row_start(n as nat, rows as nat, r as nat),
                start < n,
                current == workspace.current.tree(),
                tree.tree() == gridded(views@, rows as nat, r as nat, current),
            decreases r,
        {
            r = r - 1;
            proof {
                lemma_row_starts(n as nat, rows as nat, r as nat);
            }
            let from: usize = row_begin(n, rows, r, per_row, extra);
            let row = chain_range(SplitAxis::Horizontal, views, from, start, workspace);
            tree = split_halves(SplitAxis::Vertical, row, tree);
            start = from;
        }
        Ok(tree)
    }
}

fn row_begin(n: usize, rows: usize, r: usize, per_row: usize, extra: usize) -> (at: usize)
    requires
        0 <= r < rows <= n,
        per_row == n as nat / rows as nat,
        extra == n as nat % rows as nat,
    ensures
        at == row_start(n as nat, rows as nat, r as nat),
{
    proof {
        lemma_row_starts(n as nat, rows as nat, r as nat);
        assert(r * per_row >= 0) by (nonlinear_arith)
            requires
                r >= 0,
                per_row >= 0,
        ;
    }
    if r <= extra {
        r * per_row + r
    } else {
        r * per_row + extra
    }
}

proof fn lemma_row_count(n: nat, tall: bool)
    requires
        n >= 1,
    ensures
        1 <= row_count(n, tall) <= n,
        1 <= square_root(n) <= n,
{
    square_root_is_floor(n);
    let base = square_root(n);
    lemma_fundamental_div_mod(n as int, base as int);
    lemma_mod_bound(n as int, base as int);
    lemma_div_non_zero(n as int, base as int);
    let q = n / base;
    let e = n % base;
    assert(q <= base * q) by (nonlinear_arith)
        requires
            base >= 1,
            q >= 0,
    ;
}

/// A seat holds the id it is for.
proof fn seat_holds_the_id(current: Tree, id: ViewId)
    ensures
        seat(current, id).ids() == seq![id],
        seat(current, id).leaves() == seq![seat_view(current, id)],
        provider::shape_fault(seat(current, id)) is None,
{
    broadcast use LeafView::parts_of;

    tree_laws::first_position_is_first(current.leaves(), id);
    assert(seat(current, id).ids() =~= seq![id]);
}

proof fn halves_hold_both(axis: SplitAxis, a: Tree, b: Tree)
    ensures
        halves(axis, a, b).ids() == a.ids() + b.ids(),
        halves(axis, a, b).leaves() == a.leaves() + b.leaves(),
        provider::shape_fault(halves(axis, a, b)) is None <==> provider::shape_fault(a) is None
            && provider::shape_fault(b) is None,
{
    assert(halves(axis, a, b).ids() =~= a.ids() + b.ids());
}

/// A chain holds its views in order.
pub proof fn chain_holds_its_views(axis: SplitAxis, ids: Seq<ViewId>, current: Tree)
    requires
        ids.len() > 0,
    ensures
        chained(axis, ids, current).ids() == ids,
        chained(axis, ids, current).leaves() == seated(ids, current),
        provider::shape_fault(chained(axis, ids, current)) is None,
    decreases ids.len(),
{
    seat_holds_the_id(current, ids[0]);
    if ids.len() > 1 {
        chain_holds_its_views(axis, ids.drop_first(), current);
        halves_hold_both(
            axis,
            seat(current, ids[0]),
            chained(axis, ids.drop_first(), current),
        );
        assert(seq![ids[0]] + ids.drop_first() =~= ids);
        assert(seq![seat_view(current, ids[0])] + seated(ids.drop_first(), current) =~= seated(
            ids,
            current,
        ));
    } else {
        assert(seq![ids[0]] =~= ids);
        assert(seq![seat_view(current, ids[0])] =~= seated(ids, current));
    }
}

proof fn spiral_holds_its_views(axis: SplitAxis, ids: Seq<ViewId>, current: Tree)
    requires
        ids.len() > 0,
    ensures
        spiraled(axis, ids, current).ids() == ids,
        spiraled(axis, ids, current).leaves() == seated(ids, current),
        provider::shape_fault(spiraled(axis, ids, current)) is None,
    decreases ids.len(),
{
    seat_holds_the_id(current, ids[0]);
    if ids.len() > 1 {
        spiral_holds_its_views(flipped(axis), ids.drop_first(), current);
        halves_hold_both(
            axis,
            seat(current, ids[0]),
            spiraled(flipped(axis), ids.drop_first(), current),
        );
        assert(seq![ids[0]] + ids.drop_first() =~= ids);
        assert(seq![seat_view(current, ids[0])] + seated(ids.drop_first(), current) =~= seated(
            ids,
            current,
        ));
    } else {
        assert(seq![ids[0]] =~= ids);
        assert(seq![seat_view(current, ids[0])] =~= seated(ids, current));
    }
}

proof fn rows_hold_their_views(ids: Seq<ViewId>, rows: nat, r: nat, current: Tree)
    requires
        r < rows <= ids.len(),
    ensures
        gridded(ids, rows, r, current).ids() == ids.skip(
            row_start(ids.len(), rows, r) as int,
        ),
        gridded(ids, rows, r, current).leaves() == seated(
            ids.skip(row_start(ids.len(), rows, r) as int),
            current,
        ),
        provider::shape_fault(gridded(ids, rows, r, current)) is None,
    decreases rows - r,
{
    let n = ids.len();
    lemma_row_starts(n, rows, r);
    let row = row_of(ids, rows, r);
    chain_holds_its_views(SplitAxis::Horizontal, row, current);
    let s = row_start(n, rows, r) as int;
    let e = row_start(n, rows, r + 1) as int;
    if r + 1 < rows {
        rows_hold_their_views(ids, rows, r + 1, current);
        halves_hold_both(
            SplitAxis::Vertical,
            chained(SplitAxis::Horizontal, row, current),
            gridded(ids, rows, r + 1, current),
        );
        assert(row + ids.skip(e) =~= ids.skip(s));
        assert(seated(row, current) + seated(ids.skip(e), current) =~= seated(
            ids.skip(s),
            current,
        ));
    } else {
        assert(e == n);
        assert(row =~= ids.skip(s));
    }
}

proof fn no_fault_for_own_views(t: Tree, ids: Seq<ViewId>)
    requires
        ids.len() > 0,
        ids.no_duplicates(),
        t.ids() == ids,
        provider::shape_fault(t) is None,
    ensures
        provider::proposal_fault(t, ids) is None,
{
    provider::distinct_ids_pass(ids);
}

/// Every proposal of dwindle, master and grid holds the views in the given
/// order. A view that the current tree has is taken over as it is, its mode
/// with it.
pub proof fn canonical_proposals_keep_the_views(
    ids: Seq<ViewId>,
    area: LogicalRect,
    current: Tree,
)
    requires
        ids.len() > 0,
    ensures
        spiraled(opening(area), ids, current).leaves() == seated(ids, current),
        mastered(ids, current).leaves() == seated(ids, current),
        grid_tree(ids, area, current).leaves() == seated(ids, current),
        spiraled(opening(area), ids, current).ids() == ids,
        mastered(ids, current).ids() == ids,
        grid_tree(ids, area, current).ids() == ids,
        provider::shape_fault(spiraled(opening(area), ids, current)) is None,
        provider::shape_fault(mastered(ids, current)) is None,
        provider::shape_fault(grid_tree(ids, area, current)) is None,
        forall|i: int|
            0 <= i < ids.len() && current.has(ids[i]) ==> current.leaves().contains(
                #[trigger] seated(ids, current)[i],
            ),
{
    spiral_holds_its_views(opening(area), ids, current);
    seat_holds_the_id(current, ids[0]);
    if ids.len() == 1 {
        assert(seq![ids[0]] =~= ids);
        assert(seq![seat_view(current, ids[0])] =~= seated(ids, current));
    } else {
        chain_holds_its_views(SplitAxis::Vertical, ids.drop_first(), current);
        halves_hold_both(
            SplitAxis::Horizontal,
            seat(current, ids[0]),
            chained(SplitAxis::Vertical, ids.drop_first(), current),
        );
        assert(seq![ids[0]] + ids.drop_first() =~= ids);
        assert(seq![seat_view(current, ids[0])] + seated(ids.drop_first(), current) =~= seated(
            ids,
            current,
        ));
    }
    lemma_row_count(ids.len(), area.is_tall());
    let rows = row_count(ids.len(), area.is_tall());
    rows_hold_their_views(ids, rows, 0, current);
    assert(row_start(ids.len(), rows, 0) == 0) by {
        let q = ids.len() / rows;
        assert(0 * q == 0) by (nonlinear_arith);
    }
    assert(ids.skip(0) =~= ids);
    assert forall|i: int| 0 <= i < ids.len() && current.has(ids[i]) implies current.leaves().contains(
        #[trigger] seated(ids, current)[i],
    ) by {
        tree_laws::first_position_is_first(current.leaves(), ids[i]);
    }
}

/// Every proposal of dwindle, master and grid for distinct views passes the
/// checks and holds the views in the given order.
pub proof fn canonical_proposals_pass(ids: Seq<ViewId>, area: LogicalRect, current: Tree)
    requires
        ids.len() > 0,
        ids.no_duplicates(),
    ensures
        provider::proposal_fault(spiraled(opening(area), ids, current), ids) is None,
        provider::proposal_fault(mastered(ids, current), ids) is None,
        provider::proposal_fault(grid_tree(ids, area, current), ids) is None,
        spiraled(opening(area), ids, current).ids() == ids,
        mastered(ids, current).ids() == ids,
        grid_tree(ids, area, current).ids() == ids,
{
    canonical_proposals_keep_the_views(ids, area, current);
    no_fault_for_own_views(spiraled(opening(area), ids, current), ids);
    no_fault_for_own_views(mastered(ids, current), ids);
    no_fault_for_own_views(grid_tree(ids, area, current), ids);
}

/// An even split of a rectangle with at least two cells along the axis: the
/// first part has half of them, rounded down, and the other part the rest.
pub proof fn halves_divide_evenly(axis: SplitAxis, a: Tree, b: Tree, bounds: Rect)
    requires
        bounds.width > 0,
        bounds.height > 0,
        bounds.x + bounds.width <= 65535,
        bounds.y + bounds.height <= 65535,
    ensures
        axis == SplitAxis::Horizontal && bounds.width >= 2 ==> ({
            let w = (bounds.width as int / 2) as u16;
            let left = Rect { x: bounds.x, y: bounds.y, width: w, height: bounds.height };
            let right = Rect {
                x: (bounds.x + w) as u16,
                y: bounds.y,
                width: (bounds.width - w) as u16,
                height: bounds.height,
            };
            halves(axis, a, b).allocate(bounds, bounds, 0) == a.allocate(left, left, 0)
                + b.allocate(right, right, 0)
        }),
        axis == SplitAxis::Vertical && bounds.height >= 2 ==> ({
            let h = (bounds.height as int / 2) as u16;
            let top = Rect { x: bounds.x, y: bounds.y, width: bounds.width, height: h };
            let bottom = Rect {
                x: bounds.x,
                y: (bounds.y + h) as u16,
                width: bounds.width,
                height: (bounds.height - h) as u16,
            };
            halves(axis, a, b).allocate(bounds, bounds, 0) == a.allocate(top, top, 0)
                + b.allocate(bottom, bottom, 0)
        }),
{
    if bounds.width >= 2 {
        tree_laws::even_splits_are_halves(bounds.width as int, 0);
    }
    if bounds.height >= 2 {
        tree_laws::even_splits_are_halves(bounds.height as int, 0);
    }
}

proof fn lemma_chain_in_column(ids: Seq<ViewId>, current: Tree, bounds: Rect)
    requires
        ids.len() > 0,
        bounds.width > 0,
        bounds.x + bounds.width <= 65535,
        bounds.y + bounds.height <= 65535,
    ensures
        ({
            let slots = chained(SplitAxis::Vertical, ids, current).allocate(bounds, bounds, 0);
            &&& slots.len() == ids.len()
            &&& forall|i: int| 0 <= i < ids.len() ==> (#[trigger] slots[i]).0 == ids[i]
            &&& slots[0].1.y == bounds.y || bounds.height == 0
            &&& forall|i: int|
                0 <= i < slots.len() && (#[trigger] slots[i]).1.height > 0 ==> {
                    let r = slots[i].1;
                    let left = bounds.y + bounds.height - r.y;
                    &&& r.x == bounds.x && r.width == bounds.width && r.y >= bounds.y
                    &&& i + 1 == slots.len() ==> r.height == left
                    &&& i + 1 < slots.len() && left >= 2 ==> r.height == left / 2
                    &&& i + 1 < slots.len() && left == 1 ==> r.height == 1
                }
            &&& forall|i: int, j: int|
                0 <= i && j == i + 1 && j < slots.len() && (#[trigger] slots[j]).1.height > 0 ==> (
                #[trigger] slots[i]).1.height > 0 && slots[j].1.y == slots[i].1.y
                    + slots[i].1.height
            &&& bounds.height == 0 ==> forall|i: int|
                0 <= i < slots.len() ==> (#[trigger] slots[i]).1.height == 0
        }),
    decreases ids.len(),
{
    broadcast use LeafView::parts_of;

    let all = chained(SplitAxis::Vertical, ids, current);
    let slots = all.allocate(bounds, bounds, 0);
    seat_holds_the_id(current, ids[0]);
    assert(seat_view(current, ids[0]).key() == ids[0]) by {
        assert(seat(current, ids[0]).ids()[0] == ids[0]);
    }
    if ids.len() > 1 {
        let rest = ids.drop_first();
        let (top, bottom) = tree::split_rects(
            bounds,
            SplitAxis::Vertical,
            DEFAULT_PROVIDER_RATIO_BITS,
            0,
        );
        let below = chained(SplitAxis::Vertical, rest, current).allocate(bottom, bottom, 0);
        assert(seat(current, ids[0]).allocate(top, top, 0) =~= seq![(ids[0], top)]);
        assert(slots =~= seq![(ids[0], top)] + below);
        if bounds.height == 0 {
            lemma_chain_in_nothing(rest, current, bottom);
        } else {
            if bounds.height >= 2 {
                tree_laws::even_splits_are_halves(bounds.height as int, 0);
            }
            lemma_chain_in_column(rest, current, bottom);
        }
        assert forall|i: int, j: int|
            0 <= i && j == i + 1 && j < slots.len() && (#[trigger] slots[j]).1.height
                > 0 implies (#[trigger] slots[i]).1.height > 0 && slots[j].1.y == slots[i].1.y
            + slots[i].1.height by {
            assert(slots[j] == below[j - 1]);
            if i > 0 {
                assert(slots[i] == below[i - 1]);
            }
        }
    }
}

proof fn lemma_chain_in_nothing(ids: Seq<ViewId>, current: Tree, bounds: Rect)
    requires
        ids.len() > 0,
        bounds.height == 0,
    ensures
        ({
            let slots = chained(SplitAxis::Vertical, ids, current).allocate(bounds, bounds, 0);
            &&& slots.len() == ids.len()
            &&& forall|i: int|
                0 <= i < ids.len() ==> (#[trigger] slots[i]).0 == ids[i] && slots[i].1.height == 0
        }),
    decreases ids.len(),
{
    broadcast use LeafView::parts_of;

    let slots = chained(SplitAxis::Vertical, ids, current).allocate(bounds, bounds, 0);
    assert(seat_view(current, ids[0]).key() == ids[0]) by {
        seat_holds_the_id(current, ids[0]);
        assert(seat(current, ids[0]).ids()[0] == ids[0]);
    }
    if ids.len() > 1 {
        let rest = ids.drop_first();
        let none = geometry::zero_rect();
        lemma_chain_in_nothing(rest, current, none);
        let below = chained(SplitAxis::Vertical, rest, current).allocate(none, none, 0);
        assert(seat(current, ids[0]).allocate(none, none, 0) =~= seq![(ids[0], none)]);
        assert(slots =~= seq![(ids[0], none)] + below);
    }
}

/// In a master proposal the first view has the left half, over the whole
/// height, and the others share the columns right of it: the second view starts
/// at the top, each view starts where the one before it ends, has half of the
/// rows that are left, and the last one has all of them. Views for which no row
/// is left are empty.
pub proof fn masters_stand_left_of_a_column(ids: Seq<ViewId>, current: Tree, bounds: Rect)
    requires
        ids.len() >= 2,
        bounds.width >= 2,
        bounds.height > 0,
        bounds.x + bounds.width <= 65535,
        bounds.y + bounds.height <= 65535,
    ensures
        ({
            let slots = mastered(ids, current).allocate(bounds, bounds, 0);
            &&& slots.len() == ids.len()
            &&& forall|i: int| 0 <= i < ids.len() ==> (#[trigger] slots[i]).0 == ids[i]
            &&& slots[0].1.x == bounds.x && slots[0].1.y == bounds.y
            &&& slots[0].1.width == bounds.width / 2 && slots[0].1.height == bounds.height
            &&& slots[1].1.y == bounds.y && slots[1].1.height > 0
            &&& forall|i: int|
                1 <= i < slots.len() && (#[trigger] slots[i]).1.height > 0 ==> {
                    let r = slots[i].1;
                    let left = bounds.y + bounds.height - r.y;
                    &&& r.x == bounds.x + bounds.width / 2
                    &&& r.x + r.width == bounds.x + bounds.width
                    &&& i + 1 == slots.len() ==> r.height == left
                    &&& i + 1 < slots.len() && left >= 2 ==> r.height == left / 2
                    &&& i + 1 < slots.len() && left == 1 ==> r.height == 1
                }
            &&& forall|i: int, j: int|
                1 <= i && j == i + 1 && j < slots.len() && (#[trigger] slots[j]).1.height > 0 ==> (
                #[trigger] slots[i]).1.height > 0 && slots[j].1.y == slots[i].1.y
                    + slots[i].1.height
        }),
{
    broadcast use LeafView::parts_of;

    let rest = ids.drop_first();
    let column = chained(SplitAxis::Vertical, rest, current);
    let w = (bounds.width as int / 2) as u16;
    let right = Rect {
        x: (bounds.x + w) as u16,
        y: bounds.y,
        width: (bounds.width - w) as u16,
        height: bounds.height,
    };
    let left = Rect { x: bounds.x, y: bounds.y, width: w, height: bounds.height };
    seat_holds_the_id(current, ids[0]);
    assert(seat_view(current, ids[0]).key() == ids[0]) by {
        assert(seat(current, ids[0]).ids()[0] == ids[0]);
    }
    halves_divide_evenly(SplitAxis::Horizontal, seat(current, ids[0]), column, bounds);
    lemma_chain_in_column(rest, current, right);
    let slots = mastered(ids, current).allocate(bounds, bounds, 0);
    let below = column.allocate(right, right, 0);
    assert(slots =~= seq![(ids[0], left)] + below);
    assert(slots[1] == below[0]);
    if rest.len() > 1 {
        let (top, _bottom) = tree::split_rects(
            right,
            SplitAxis::Vertical,
            DEFAULT_PROVIDER_RATIO_BITS,
            0,
        );
        assert(seat(current, rest[0]).allocate(top, top, 0).len() == 1);
        assert(below[0] == seat(current, rest[0]).allocate(top, top, 0)[0]);
        assert(right.height >= 2 ==> top.height == right.height as int / 2) by {
            if right.height >= 2 {
                tree_laws::even_splits_are_halves(right.height as int, 0);
            }
        }
        assert(below[0].1 == top);
    }
    assert forall|i: int, j: int|
        1 <= i && j == i + 1 && j < slots.len() && (#[trigger] slots[j]).1.height > 0 implies (
    #[trigger] slots[i]).1.height > 0 && slots[j].1.y == slots[i].1.y + slots[i].1.height by {
        assert(slots[j] == below[j - 1]);
        assert(slots[i] == below[i - 1]);
    }
}

/// A dwindle proposal gives the first view half of the area and the others the
/// other half, where they are divided across: side by side first, then stacked,
/// then side by side again.
pub proof fn dwindles_turn_at_every_view(ids: Seq<ViewId>, current: Tree, bounds: Rect)
    requires
        ids.len() >= 2,
        bounds.width >= 2,
        bounds.height >= 2,
        bounds.x + bounds.width <= 65535,
        bounds.y + bounds.height <= 65535,
    ensures
        ({
            let w = (bounds.width as int / 2) as u16;
            let left = Rect { x: bounds.x, y: bounds.y, width: w, height: bounds.height };
            let right = Rect {
                x: (bounds.x + w) as u16,
                y: bounds.y,
                width: (bounds.width - w) as u16,
                height: bounds.height,
            };
            spiraled(SplitAxis::Horizontal, ids, current).allocate(bounds, bounds, 0) == seq![
                (ids[0], left),
            ] + spiraled(SplitAxis::Vertical, ids.drop_first(), current).allocate(right, right, 0)
        }),
        ({
            let h = (bounds.height as int / 2) as u16;
            let top = Rect { x: bounds.x, y: bounds.y, width: bounds.width, height: h };
            let bottom = Rect {
                x: bounds.x,
                y: (bounds.y + h) as u16,
                width: bounds.width,
                height: (bounds.height - h) as u16,
            };
            spiraled(SplitAxis::Vertical, ids, current).allocate(bounds, bounds, 0) == seq![
                (ids[0], top),
            ] + spiraled(SplitAxis::Horizontal, ids.drop_first(), current).allocate(
                bottom,
                bottom,
                0,
            )
        }),
{
    broadcast use LeafView::parts_of;

    let rest = ids.drop_first();
    seat_holds_the_id(current, ids[0]);
    assert(seat_view(current, ids[0]).key() == ids[0]) by {
        assert(seat(current, ids[0]).ids()[0] == ids[0]);
    }
    let me = seat(current, ids[0]);
    halves_divide_evenly(
        SplitAxis::Horizontal,
        me,
        spiraled(SplitAxis::Vertical, rest, current),
        bounds,
    );
    halves_divide_evenly(
        SplitAxis::Vertical,
        me,
        spiraled(SplitAxis::Horizontal, rest, current),
        bounds,
    );
}

/// A view alone has the whole area, whatever the provider.
pub proof fn single_views_fill_the_area(
    id: ViewId,
    axis: SplitAxis,
    area: LogicalRect,
    current: Tree,
    bounds: Rect,
)
    ensures
        spiraled(axis, seq![id], current).allocate(bounds, bounds, 0) == seq![(id, bounds)],
        mastered(seq![id], current).allocate(bounds, bounds, 0) == seq![(id, bounds)],
        chained(axis, seq![id], current).allocate(bounds, bounds, 0) == seq![(id, bounds)],
        grid_tree(seq![id], area, current).allocate(bounds, bounds, 0) == seq![(id, bounds)],
{
    broadcast use LeafView::parts_of;

    seat_holds_the_id(current, id);
    assert(seat_view(current, id).key() == id) by {
        assert(seat(current, id).ids()[0] == id);
    }
    let rows = row_count(1, area.is_tall());
    grids_are_nearly_square(1);
    assert(rows == 1) by (nonlinear_arith)
        requires
            rows == row_count(1, false) || rows == row_count(1, true),
            row_count(1, false) >= 1,
            row_count(1, false) * row_count(1, false) <= 1,
            row_count(1, true) >= 1,
            (row_count(1, true) - 1) * row_count(1, false) < 1,
    ;
    lemma_row_starts(1, 1, 0);
    assert(row_of(seq![id], 1, 0) =~= seq![id]);
}

/// The first split of a dwindle, and the rows of a grid, go by the shape of the
/// area. It is tall when both of its sides are positive numbers and its height,
/// in the order of its bits, is above its width.
pub proof fn areas_are_tall_by_their_sides(area: LogicalRect, ids: Seq<ViewId>, current: Tree)
    ensures
        ({
            let (w, h) = (area.width@, area.height@);
            let tall = 0 < w < h && h < 0x7FF0_0000_0000_0000;
            &&& opening(area) == (if tall {
                SplitAxis::Vertical
            } else {
                SplitAxis::Horizontal
            })
            &&& grid_tree(ids, area, current) == gridded(
                ids,
                row_count(ids.len(), tall),
                0,
                current,
            )
        }),
{
}

/// The rows of a grid follow each other: each row starts where the one before it
/// ends, the first with the first view and the last ends with the last view.
pub proof fn grid_rows_follow_each_other(ids: Seq<ViewId>, rows: nat, r: nat, j: int)
    requires
        0 < rows <= ids.len(),
        r < rows,
        0 <= j < row_of(ids, rows, r).len(),
    ensures
        row_of(ids, rows, r).len() == ids.len() / rows + (if r < ids.len() % rows {
            1int
        } else {
            0
        }),
        r < ids.len() % rows ==> row_of(ids, rows, r)[j] == ids[r * (ids.len() / rows + 1) + j],
        r >= ids.len() % rows ==> row_of(ids, rows, r)[j] == ids[r * (ids.len() / rows) + (
        ids.len() % rows) + j],
{
    lemma_row_starts(ids.len(), rows, r);
    let q = ids.len() / rows;
    assert(r * (q + 1) == r * q + r) by (nonlinear_arith);
}

/// A view of a proposal is the one that the current tree has under its id, and
/// else a new tiled one of one cell.
pub proof fn proposals_keep_known_views(current: Tree, id: ViewId, k: int)
    ensures
        0 <= k < current.leaves().len() && current.leaves()[k].key() == id && (forall|j: int|
            0 <= j < k ==> (#[trigger] current.leaves()[j]).key() != id) ==> seat(current, id)
            == Tree::Leaf(current.leaves()[k]),
        (forall|j: int| 0 <= j < current.leaves().len() ==> (#[trigger] current.leaves()[j]).key()
            != id) ==> seat_view(current, id).key() == id && seat_view(current, id).columns() == 1
            && seat_view(current, id).lines() == 1,
{
    broadcast use LeafView::parts_of;

    tree_laws::first_position_is_first(current.leaves(), id);
    let q = tree_laws::first_position(current.leaves(), id);
    if 0 <= k < current.leaves().len() && current.leaves()[k].key() == id && (forall|j: int|
        0 <= j < k ==> (#[trigger] current.leaves()[j]).key() != id) {
        if q < k {
            assert(current.leaves()[q].key() != id);
        } else if k < q {
            assert(current.leaves()[k].key() != id);
        }
    }
}

/// A grid has as many rows as the whole part of the square root of the number of
/// views; in a tall area, as many rows of that length as the views need.
pub proof fn grids_are_nearly_square(n: nat)
    requires
        n > 0,
    ensures
        ({
            let rows = row_count(n, false);
            let tall_rows = row_count(n, true);
            &&& rows >= 1 && rows * rows <= n < (rows + 1) * (rows + 1)
            &&& tall_rows >= 1 && (tall_rows - 1) * rows < n <= tall_rows * rows
        }),
{
    square_root_is_floor(n);
    let s = square_root(n);
    lemma_fundamental_div_mod(n as int, s as int);
    lemma_mod_bound(n as int, s as int);
    let (q, r) = (n / s, n % s);
    assert((q - 1) * s < n && (r == 0 ==> n <= q * s) && (r > 0 ==> q * s < n <= (q + 1) * s))
        by (nonlinear_arith)
        requires
            n == s * q + r,
            r < s,
            s >= 1,
    ;
    assert(q >= 1 || r > 0) by (nonlinear_arith)
        requires
            n == s * q + r,
            n > 0,
    ;
}

/// The rows of a grid stand one below the other, each with half of the height
/// that is left, and the views of a row stand side by side, each with half of the
/// width that is left.
pub proof fn grids_stack_rows_of_views(
    ids: Seq<ViewId>,
    rows: nat,
    r: nat,
    current: Tree,
    bounds: Rect,
)
    requires
        r < rows <= ids.len(),
        bounds.width >= 2,
        bounds.height >= 2,
        bounds.x + bounds.width <= 65535,
        bounds.y + bounds.height <= 65535,
    ensures
        ({
            let row = row_of(ids, rows, r);
            let h = (bounds.height as int / 2) as u16;
            let w = (bounds.width as int / 2) as u16;
            let top = Rect { x: bounds.x, y: bounds.y, width: bounds.width, height: h };
            let bottom = Rect {
                x: bounds.x,
                y: (bounds.y + h) as u16,
                width: bounds.width,
                height: (bounds.height - h) as u16,
            };
            let left = Rect { x: bounds.x, y: bounds.y, width: w, height: bounds.height };
            let right = Rect {
                x: (bounds.x + w) as u16,
                y: bounds.y,
                width: (bounds.width - w) as u16,
                height: bounds.height,
            };
            &&& row.len() >= 1
            &&& r + 1 < rows ==> gridded(ids, rows, r, current).allocate(bounds, bounds, 0)
                == chained(SplitAxis::Horizontal, row, current).allocate(top, top, 0) + gridded(
                ids,
                rows,
                r + 1,
                current,
            ).allocate(bottom, bottom, 0)
            &&& r + 1 == rows ==> gridded(ids, rows, r, current).allocate(bounds, bounds, 0)
                == chained(SplitAxis::Horizontal, row, current).allocate(bounds, bounds, 0)
            &&& row.len() >= 2 ==> chained(SplitAxis::Horizontal, row, current).allocate(
                bounds,
                bounds,
                0,
            ) == seq![(row[0], left)] + chained(
                SplitAxis::Horizontal,
                row.drop_first(),
                current,
            ).allocate(right, right, 0)
        }),
{
    broadcast use LeafView::parts_of;

    let row = row_of(ids, rows, r);
    lemma_row_starts(ids.len(), rows, r);
    let line = chained(SplitAxis::Horizontal, row, current);
    seat_holds_the_id(current, row[0]);
    assert(seat_view(current, row[0]).key() == row[0]) by {
        assert(seat(current, row[0]).ids()[0] == row[0]);
    }
    halves_divide_evenly(
        SplitAxis::Vertical,
        line,
        gridded(ids, rows, r + 1, current),
        bounds,
    );
    halves_divide_evenly(
        SplitAxis::Horizontal,
        seat(current, row[0]),
        chained(SplitAxis::Horizontal, row.drop_first(), current),
        bounds,
    );
}

/// The lengths of two rows of a grid differ by at most one, and no later row
/// is longer.
pub proof fn grid_rows_are_balanced(n: nat, rows: nat, i: nat, j: nat)
    requires
        0 < rows <= n,
        i <= j < rows,
    ensures
        ({
            let a = row_start(n, rows, i + 1) - row_start(n, rows, i);
            let b = row_start(n, rows, j + 1) - row_start(n, rows, j);
            1 <= b <= a <= b + 1
        }),
{
    lemma_row_starts(n, rows, i);
    lemma_row_starts(n, rows, j);
}

} // verus!
