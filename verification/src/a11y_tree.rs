//! Accessibility tree: the window, the terminal with its rows, the chrome and
//! the scene roles, built once and then only read.

use crate::a11y;
use crate::a11y::{A11yError, A11yRole, Chrome, ChromeKind, ChromeNode, SceneKind};
use crate::a11y::{MAX_A11Y_TREE_NODES, MAX_ACCESSIBLE_NAME_LEN};
use crate::term_state::{Cursor, Snapshot};
use crate::text;
use std::hash::{BuildHasher, RandomState};
use vstd::prelude::*;

verus! {

/// `RandomState::new` makes a hash builder from random keys. Nothing is
/// claimed of the keys.
pub assume_specification[ RandomState::new ]() -> (state: RandomState)
;

/// `BuildHasher::hash_one` hashes one value with the keys of the builder.
/// Nothing is claimed of the hash, which depends on the keys.
#[verifier::external_body]
fn hash_of(state: &RandomState, value: u64) -> (hash: u64) {
    state.hash_one(value)
}

/// Draws a brand. Two draws differ unless the random keys give the same hash,
/// so nothing is promised of the value.
fn draw_brand() -> (brand: u64) {
    let state = RandomState::new();
    hash_of(&state, 0)
}

/// Handle of a node, scoped to the builder that issued it: it carries the brand
/// of the builder.
#[derive(Debug, Clone, Copy, PartialEq, Eq, Structural, Hash)]
pub struct A11yNodeId {
    brand: u64,
    index: u32,
}

impl A11yNodeId {
    /// The brand of the builder that issued the handle.
    pub closed spec fn brand(self) -> u64 {
        self.brand
    }

    /// The position of the node.
    pub closed spec fn position(self) -> int {
        self.index as int
    }

    /// The number of the handle.
    #[must_use]
    pub fn as_u32(self) -> (n: u32)
        ensures
            n == self.position(),
    {
        self.index
    }

    /// The handle as an index.
    #[must_use]
    pub fn as_usize(self) -> (n: usize)
        ensures
            n == self.position(),
    {
        self.index as usize
    }
}

/// What a node stands for.
#[derive(Debug, Clone, Copy, PartialEq, Eq, Structural, Hash)]
pub enum A11yNodeKind {
    /// The window.
    Root,
    /// The terminal.
    Terminal,
    /// One row of text.
    TerminalRow,
    /// A scene node.
    Scene(SceneKind),
    /// A chrome surface.
    Chrome(ChromeKind),
    /// A control.
    Interactive(A11yRole),
}

/// The role of a kind of node; chrome has none.
pub open spec fn role_for(kind: A11yNodeKind) -> Option<A11yRole> {
    match kind {
        A11yNodeKind::Root => Some(A11yRole::Group),
        A11yNodeKind::Terminal => Some(A11yRole::Text),
        A11yNodeKind::TerminalRow => Some(A11yRole::Text),
        A11yNodeKind::Scene(kind) => a11y::mapped_role(kind),
        A11yNodeKind::Chrome(_) => None,
        A11yNodeKind::Interactive(role) => Some(role),
    }
}

/// One node of a tree.
#[derive(Debug, Eq)]
pub struct A11yNode {
    id: A11yNodeId,
    kind: A11yNodeKind,
    name: String,
    state: Option<String>,
    children: Vec<A11yNodeId>,
}

/// What a node says.
#[verifier::ext_equal]
pub struct Entry {
    /// What it stands for.
    pub kind: A11yNodeKind,
    /// Its name, or the text of a row.
    pub name: Seq<char>,
    /// Its announced state.
    pub state: Option<Seq<char>>,
    /// The positions of its children, in order.
    pub children: Seq<int>,
}

impl View for A11yNode {
    type V = Entry;

    closed spec fn view(&self) -> Entry {
        Entry {
            kind: self.kind,
            name: self.name@,
            state: a11y::chars_of_owned(self.state),
            children: Seq::new(self.children@.len(), |i: int| self.children@[i].position()),
        }
    }
}

impl A11yNode {
    /// The handle of the node.
    pub closed spec fn handle(self) -> A11yNodeId {
        self.id
    }

    /// The handles of the children, in order.
    pub closed spec fn links(self) -> Seq<A11yNodeId> {
        self.children@
    }

    /// The position of the node in its tree.
    pub open spec fn place(self) -> int {
        self.handle().position()
    }

    /// Every handle that the node holds carries the brand.
    pub open spec fn is_of(self, brand: u64) -> bool {
        self.handle().brand() == brand && forall|j: int|
            0 <= j < self.links().len() ==> (#[trigger] self.links()[j]).brand() == brand
    }

    /// The handle of the node.
    #[must_use]
    pub fn id(&self) -> (id: A11yNodeId)
        ensures
            id == self.handle(),
    {
        self.id
    }

    /// What the node stands for.
    #[must_use]
    pub fn kind(&self) -> (kind: A11yNodeKind)
        ensures
            kind == self@.kind,
    {
        self.kind
    }

    /// The name, or the text of a row.
    #[must_use]
    pub fn name(&self) -> (name: &str)
        ensures
            name@ == self@.name,
    {
        self.name.as_str()
    }

    /// The announced state.
    #[must_use]
    pub fn state(&self) -> (state: Option<&str>)
        ensures
            a11y::chars_in(state) == self@.state,
    {
        match &self.state {
            Some(s) => Some(s.as_str()),
            None => None,
        }
    }

    /// The handles of the children, in order.
    #[must_use]
    pub fn children(&self) -> (children: &[A11yNodeId])
        ensures
            children@ == self.links(),
            children@.len() == self@.children.len(),
            forall|i: int|
                0 <= i < children@.len() ==> (#[trigger] children@[i]).position()
                    == self@.children[i],
    {
        self.children.as_slice()
    }

    /// The role, which chrome does not have.
    #[must_use]
    pub fn role(&self) -> (role: Option<A11yRole>)
        ensures
            role == role_for(self@.kind),
    {
        match self.kind {
            A11yNodeKind::Root => Some(A11yRole::Group),
            A11yNodeKind::Terminal | A11yNodeKind::TerminalRow => Some(A11yRole::Text),
            A11yNodeKind::Scene(kind) => match a11y::role_of(kind) {
                Ok(role) => Some(role),
                Err(_) => None,
            },
            A11yNodeKind::Chrome(_) => None,
            A11yNodeKind::Interactive(role) => Some(role),
        }
    }
}

/// What a run of nodes says.
pub open spec fn entries_in(nodes: Seq<A11yNode>) -> Seq<Entry> {
    Seq::new(nodes.len(), |i: int| nodes[i]@)
}

/// `up` names the parent of every node but the first: children come after their
/// parent and stand under it once.
pub open spec fn hangs_by(entries: Seq<Entry>, up: Seq<int>) -> bool {
    &&& up.len() == entries.len()
    &&& forall|p: int, j: int|
        0 <= p < entries.len() && 0 <= j < entries[p].children.len() ==> p < (
        #[trigger] entries[p].children[j]) < entries.len() && up[entries[p].children[j]] == p
    &&& forall|p: int|
        0 <= p < entries.len() ==> (#[trigger] entries[p]).children.no_duplicates()
    &&& forall|k: int|
        1 <= k < entries.len() ==> 0 <= #[trigger] up[k] < k && entries[up[k]].children.contains(k)
}

/// The nodes form one tree below the first.
pub open spec fn is_tree(entries: Seq<Entry>) -> bool {
    &&& 1 <= entries.len() <= MAX_A11Y_TREE_NODES
    &&& exists|up: Seq<int>| hangs_by(entries, up)
}

/// The positions below a node from its `j`-th child on, depth first.
pub open spec fn below(entries: Seq<Entry>, id: int, j: int) -> Seq<int>
    decreases entries.len() - id, 0int, entries[id].children.len() - j,
{
    if !(0 <= id < entries.len() && 0 <= j < entries[id].children.len()) {
        Seq::empty()
    } else {
        let child = entries[id].children[j];
        (if id < child < entries.len() {
            subtree(entries, child)
        } else {
            Seq::empty()
        }) + below(entries, id, j + 1)
    }
}

/// The positions of a node and everything below it, depth first.
pub open spec fn subtree(entries: Seq<Entry>, id: int) -> Seq<int>
    decreases entries.len() - id, 1int, 0int,
{
    if 0 <= id < entries.len() {
        seq![id] + below(entries, id, 0)
    } else {
        Seq::empty()
    }
}

/// The positions that a stack still has to visit, the last one first.
spec fn pending(entries: Seq<Entry>, stack: Seq<A11yNodeId>) -> Seq<int>
    decreases stack.len(),
{
    if stack.len() == 0 {
        Seq::empty()
    } else {
        subtree(entries, stack.last().position()) + pending(entries, stack.drop_last())
    }
}

/// Accessibility tree, only to be read.
#[derive(Debug, Eq)]
pub struct A11yTree {
    nodes: Vec<A11yNode>,
    root: A11yNodeId,
}

impl A11yTree {
    /// What the nodes say, by position.
    pub closed spec fn entries(self) -> Seq<Entry> {
        entries_in(self.nodes@)
    }

    /// The brand of the builder that made the tree.
    pub closed spec fn brand(self) -> u64 {
        self.root.brand()
    }

    /// The nodes form a tree, and each knows its position. All handles carry
    /// the brand.
    pub closed spec fn wf(self) -> bool {
        &&& is_tree(self.entries())
        &&& self.root.position() == 0
        &&& forall|i: int|
            0 <= i < self.nodes@.len() ==> (#[trigger] self.nodes@[i]).place() == i
                && self.nodes@[i].is_of(self.brand())
    }

    /// The trees hold the same nodes at the same positions.
    pub closed spec fn reads_as(self, other: Self) -> bool {
        &&& self.nodes@.len() == other.nodes@.len()
        &&& self.root.position() == other.root.position()
        &&& forall|i: int|
            0 <= i < self.nodes@.len() ==> (#[trigger] self.nodes@[i])@ == other.nodes@[i]@
                && self.nodes@[i].place() == other.nodes@[i].place()
    }

    /// The handle of the root.
    #[must_use]
    pub fn root(&self) -> (id: A11yNodeId)
        requires
            self.wf(),
        ensures
            id.position() == 0,
            id.brand() == self.brand(),
    {
        self.root
    }

    /// Number of nodes.
    #[must_use]
    pub fn len(&self) -> (n: usize)
        ensures
            n == self.entries().len(),
    {
        self.nodes.len()
    }

    /// Whether there is no node; a built tree has one at least.
    #[must_use]
    pub fn is_empty(&self) -> (empty: bool)
        ensures
            empty == (self.entries().len() == 0),
            self.wf() ==> !empty,
    {
        self.nodes.len() == 0
    }

    /// The node of a handle; a handle of another builder has none.
    #[must_use]
    pub fn get(&self, id: A11yNodeId) -> (node: Option<&A11yNode>)
        ensures
            match node {
                Some(node) => id.brand() == self.brand() && id.position() < self.entries().len()
                    && node@ == self.entries()[id.position()] && (self.wf() ==> node.handle() == id
                    && node.is_of(self.brand())),
                None => id.brand() != self.brand() || id.position() >= self.entries().len(),
            },
    {
        if id.brand == self.root.brand && id.as_usize() < self.nodes.len() {
            Some(&self.nodes[id.as_usize()])
        } else {
            None
        }
    }

    /// The nodes from the root, depth first.
    #[must_use]
    pub fn preorder(&self) -> (nodes: Vec<&A11yNode>)
        requires
            self.wf(),
        ensures
            nodes@.len() == subtree(self.entries(), 0).len(),
            forall|i: int|
                0 <= i < nodes@.len() ==> (#[trigger] nodes@[i]).place() == subtree(
                    self.entries(),
                    0,
                )[i] && nodes@[i]@ == self.entries()[subtree(self.entries(), 0)[i]]
                    && nodes@[i].is_of(self.brand()),
    {
        let ghost entries = self.entries();
        let ghost whole = subtree(entries, 0);
        let mut stack: Vec<A11yNodeId> = Vec::new();
        stack.push(self.root);
        let mut out: Vec<&A11yNode> = Vec::new();
        proof {
            assert(stack@.drop_last() =~= Seq::<A11yNodeId>::empty());
            assert(pending(entries, stack@.drop_last()) =~= Seq::<int>::empty());
            assert(pending(entries, stack@) =~= whole);
            assert(whole =~= whole.take(0) + pending(entries, stack@));
        }
        while stack.len() > 0
            invariant
                self.wf(),
                entries == self.entries(),
                whole == subtree(entries, 0),
                forall|i: int|
                    0 <= i < stack@.len() ==> 0 <= (#[trigger] stack@[i]).position()
                        < entries.len(),
                out@.len() <= whole.len(),
                whole == whole.take(out@.len() as int) + pending(entries, stack@),
                forall|i: int|
                    0 <= i < out@.len() ==> (#[trigger] out@[i]).place() == whole[i] && out@[i]@
                        == entries[whole[i]] && out@[i].is_of(self.brand()),
            decreases pending(entries, stack@).len(),
        {
            let ghost before = stack@;
            let ghost done = out@.len() as int;
            assert(before[before.len() - 1].position() < entries.len());
            let id = match stack.pop() {
                Some(id) => id,
                None => {
                    return out;
                },
            };
            assert(before.last() == id);
            assert(stack@ =~= before.drop_last());
            let ghost rest = stack@;
            let node = &self.nodes[id.as_usize()];
            let ghost place = id.position();
            assert(node@ == entries[place]);
            out.push(node);
            let mut j: usize = node.children.len();
            proof {
                assert(below(entries, place, j as int) =~= Seq::<int>::empty());
                assert(pending(entries, stack@) =~= below(entries, place, j as int) + pending(
                    entries,
                    rest,
                ));
            }
            while j > 0
                invariant
                    self.wf(),
                    entries == self.entries(),
                    0 <= place < entries.len(),
                    node@ == entries[place],
                    0 <= j <= node.children@.len(),
                    forall|i: int|
                        0 <= i < stack@.len() ==> 0 <= (#[trigger] stack@[i]).position()
                            < entries.len(),
                    pending(entries, stack@) == below(entries, place, j as int) + pending(
                        entries,
                        rest,
                    ),
                decreases j,
            {
                j = j - 1;
                let child = node.children[j];
                let ghost earlier = stack@;
                proof {
                    let up = choose|up: Seq<int>| hangs_by(entries, up);
                    assert(entries[place].children[j as int] == child.position());
                }
                stack.push(child);
                assert(stack@.drop_last() =~= earlier);
                assert(pending(entries, stack@) =~= below(entries, place, j as int) + pending(
                    entries,
                    rest,
                ));
            }
            proof {
                let old_pending = pending(entries, before);
                assert(old_pending =~= seq![place] + below(entries, place, 0) + pending(
                    entries,
                    rest,
                ));
                assert(old_pending =~= seq![place] + pending(entries, stack@));
                assert(whole[done] == old_pending[0]);
                assert(whole.take(done + 1) =~= whole.take(done).push(place));
                assert(whole =~= whole.take(done + 1) + pending(entries, stack@));
            }
        }
        assert(pending(entries, stack@) =~= Seq::<int>::empty());
        out
    }
}

/// Builds accessibility trees.
#[derive(Debug)]
pub struct A11yTreeBuilder {
    nodes: Vec<A11yNode>,
    brand: u64,
}

/// Why a builder of the given brand refuses a node.
pub open spec fn push_fault(
    entries: Seq<Entry>,
    brand: u64,
    parent: A11yNodeId,
    kind: A11yNodeKind,
    name: Seq<char>,
    state: Option<Seq<char>>,
) -> Option<A11yError> {
    if a11y::name_fault(name) is Some {
        a11y::name_fault(name)
    } else if a11y::state_fault(state) is Some {
        a11y::state_fault(state)
    } else {
        placing_fault(entries, brand, parent, kind)
    }
}

/// Why a builder of the given brand refuses a node whatever it says. A parent
/// of another brand is unknown.
pub open spec fn placing_fault(
    entries: Seq<Entry>,
    brand: u64,
    parent: A11yNodeId,
    kind: A11yNodeKind,
) -> Option<A11yError> {
    if kind matches A11yNodeKind::Scene(scene) && a11y::mapped_role(scene) is None {
        Some(A11yError::UnmappedSceneKind)
    } else if entries.len() >= MAX_A11Y_TREE_NODES {
        Some(
            A11yError::TooManyNodes {
                count: (entries.len() + 1) as usize,
                cap: MAX_A11Y_TREE_NODES,
            },
        )
    } else if parent.brand() != brand || parent.position() >= entries.len() {
        Some(A11yError::UnknownParent)
    } else {
        None
    }
}

/// The nodes with a new last one under `parent`.
pub open spec fn attached(
    entries: Seq<Entry>,
    parent: int,
    kind: A11yNodeKind,
    name: Seq<char>,
    state: Option<Seq<char>>,
) -> Seq<Entry> {
    entries.update(
        parent,
        Entry { children: entries[parent].children.push(entries.len() as int), ..entries[parent] },
    ).push(Entry { kind, name, state, children: Seq::empty() })
}

proof fn lemma_attached(
    entries: Seq<Entry>,
    parent: int,
    kind: A11yNodeKind,
    name: Seq<char>,
    state: Option<Seq<char>>,
)
    requires
        is_tree(entries),
        0 <= parent < entries.len() < MAX_A11Y_TREE_NODES,
    ensures
        is_tree(attached(entries, parent, kind, name, state)),
{
    let up = choose|up: Seq<int>| hangs_by(entries, up);
    let more = attached(entries, parent, kind, name, state);
    let n = entries.len() as int;
    let above = up.push(parent);
    assert forall|p: int, j: int|
        0 <= p < more.len() && 0 <= j < more[p].children.len() implies p < (
    #[trigger] more[p].children[j]) < more.len() && above[more[p].children[j]] == p by {
        if p < n && j < entries[p].children.len() {
            assert(more[p].children[j] == entries[p].children[j]);
        }
    }
    assert forall|p: int| 0 <= p < more.len() implies (
    #[trigger] more[p]).children.no_duplicates() by {
        if p < n {
            let children = entries[p].children;
            assert(entries[p].children.no_duplicates());
            assert forall|a: int, b: int|
                0 <= a < more[p].children.len() && 0 <= b < more[p].children.len() && a
                    != b implies more[p].children[a] != more[p].children[b] by {
                if a < children.len() {
                    assert(entries[p].children[a] < n);
                }
                if b < children.len() {
                    assert(entries[p].children[b] < n);
                }
            }
        }
    }
    assert forall|k: int| 1 <= k < more.len() implies 0 <= #[trigger] above[k] < k
        && more[above[k]].children.contains(k) by {
        if k < n {
            assert(up[k] == above[k]);
            let j = choose|j: int|
                0 <= j < entries[up[k]].children.len() && entries[up[k]].children[j] == k;
            assert(more[up[k]].children[j] == k);
        } else {
            assert(more[parent].children[entries[parent].children.len() as int] == k);
        }
    }
    assert(hangs_by(more, above));
}

impl A11yTreeBuilder {
    /// What the nodes say, by position.
    pub closed spec fn entries(self) -> Seq<Entry> {
        entries_in(self.nodes@)
    }

    /// The brand of the handles that the builder issues.
    pub closed spec fn brand(self) -> u64 {
        self.brand
    }

    /// The nodes form a tree, and each knows its position. All handles carry
    /// the brand.
    pub closed spec fn wf(self) -> bool {
        &&& is_tree(self.entries())
        &&& forall|i: int|
            0 <= i < self.nodes@.len() ==> (#[trigger] self.nodes@[i]).place() == i
                && self.nodes@[i].is_of(self.brand())
    }

    /// Starts a tree whose root has the name, with a drawn brand.
    pub fn new(root_name: &str) -> (r: Result<Self, A11yError>)
        ensures
            match a11y::name_fault(root_name@) {
                Some(e) => r == Err::<Self, A11yError>(e),
                None => r matches Ok(builder) && builder.wf() && builder.entries() == seq![
                    Entry {
                        kind: A11yNodeKind::Root,
                        name: root_name@,
                        state: None,
                        children: Seq::empty(),
                    },
                ],
            },
    {
        Self::with_brand(draw_brand(), root_name)
    }

    /// Starts a tree whose root has the name, with the given brand. Builders of
    /// different brands refuse each other's handles.
    pub fn with_brand(brand: u64, root_name: &str) -> (r: Result<Self, A11yError>)
        ensures
            match a11y::name_fault(root_name@) {
                Some(e) => r == Err::<Self, A11yError>(e),
                None => r matches Ok(builder) && builder.wf() && builder.brand() == brand
                    && builder.entries() == seq![
                    Entry {
                        kind: A11yNodeKind::Root,
                        name: root_name@,
                        state: None,
                        children: Seq::empty(),
                    },
                ],
            },
    {
        let len: usize = text::chars_of(root_name).len();
        if len > MAX_ACCESSIBLE_NAME_LEN {
            return Err(A11yError::NameTooLong { len, cap: MAX_ACCESSIBLE_NAME_LEN });
        }
        let mut nodes: Vec<A11yNode> = Vec::new();
        nodes.push(
            A11yNode {
                id: A11yNodeId { brand, index: 0 },
                kind: A11yNodeKind::Root,
                name: root_name.to_owned(),
                state: None,
                children: Vec::new(),
            },
        );
        let builder = Self { nodes, brand };
        proof {
            let entry = Entry {
                kind: A11yNodeKind::Root,
                name: root_name@,
                state: None,
                children: Seq::empty(),
            };
            assert(builder.nodes@[0]@ =~= entry);
            assert(builder.entries() =~= seq![entry]);
            assert(hangs_by(builder.entries(), seq![0int]));
        }
        Ok(builder)
    }

    /// The handle of the root.
    #[must_use]
    pub fn root(&self) -> (id: A11yNodeId)
        ensures
            id.position() == 0,
            id.brand() == self.brand(),
    {
        A11yNodeId { brand: self.brand, index: 0 }
    }

    /// Number of nodes so far.
    #[must_use]
    pub fn len(&self) -> (n: usize)
        ensures
            n == self.entries().len(),
    {
        self.nodes.len()
    }

    /// Whether there is no node yet; a started tree has one at least.
    #[must_use]
    pub fn is_empty(&self) -> (empty: bool)
        ensures
            empty == (self.entries().len() == 0),
            self.wf() ==> !empty,
    {
        self.nodes.len() == 0
    }

    /// Attaches a node under a parent.
    pub fn push(
        &mut self,
        parent: A11yNodeId,
        kind: A11yNodeKind,
        name: &str,
        state: Option<&str>,
    ) -> (r: Result<A11yNodeId, A11yError>)
        requires
            old(self).wf(),
        ensures
            final(self).wf(),
            final(self).brand() == old(self).brand(),
            match push_fault(
                old(self).entries(),
                old(self).brand(),
                parent,
                kind,
                name@,
                a11y::chars_in(state),
            ) {
                Some(e) => r == Err::<A11yNodeId, A11yError>(e) && final(self).entries() == old(
                    self
                ).entries(),
                None => (r matches Ok(id) && id.position() == old(self).entries().len()
                    && id.brand() == old(self).brand()) && final(self).entries() == attached(
                    old(self).entries(),
                    parent.position(),
                    kind,
                    name@,
                    a11y::chars_in(state),
                ),
            },
    {
        let len: usize = text::chars_of(name).len();
        if len > MAX_ACCESSIBLE_NAME_LEN {
            return Err(A11yError::NameTooLong { len, cap: MAX_ACCESSIBLE_NAME_LEN });
        }
        if let Some(s) = state {
            let len: usize = text::chars_of(s).len();
            if len > MAX_ACCESSIBLE_NAME_LEN {
                return Err(A11yError::NameTooLong { len, cap: MAX_ACCESSIBLE_NAME_LEN });
            }
        }
        self.place(parent, kind, name, state)
    }

    /// Attaches a row of text under a parent. The text is content, not a name,
    /// and has no bound of its own.
    pub fn push_row_text(&mut self, parent: A11yNodeId, text: &str) -> (r: Result<
        A11yNodeId,
        A11yError,
    >)
        requires
            old(self).wf(),
        ensures
            final(self).wf(),
            final(self).brand() == old(self).brand(),
            match placing_fault(
                old(self).entries(),
                old(self).brand(),
                parent,
                A11yNodeKind::TerminalRow,
            ) {
                Some(e) => r == Err::<A11yNodeId, A11yError>(e) && final(self).entries() == old(
                    self
                ).entries(),
                None => (r matches Ok(id) && id.position() == old(self).entries().len()
                    && id.brand() == old(self).brand()) && final(self).entries() == attached(
                    old(self).entries(),
                    parent.position(),
                    A11yNodeKind::TerminalRow,
                    text@,
                    None,
                ),
            },
    {
        self.place(parent, A11yNodeKind::TerminalRow, text, None)
    }

    /// Freezes the nodes into a tree.
    #[must_use]
    pub fn finish(self) -> (tree: A11yTree)
        requires
            self.wf(),
        ensures
            tree.wf(),
            tree.brand() == self.brand(),
            tree.entries() == self.entries(),
    {
        A11yTree { nodes: self.nodes, root: A11yNodeId { brand: self.brand, index: 0 } }
    }

    fn place(
        &mut self,
        parent: A11yNodeId,
        kind: A11yNodeKind,
        name: &str,
        state: Option<&str>,
    ) -> (r: Result<A11yNodeId, A11yError>)
        requires
            old(self).wf(),
        ensures
            final(self).wf(),
            final(self).brand() == old(self).brand(),
            match placing_fault(old(self).entries(), old(self).brand(), parent, kind) {
                Some(e) => r == Err::<A11yNodeId, A11yError>(e) && final(self).entries() == old(
                    self
                ).entries(),
                None => (r matches Ok(id) && id.position() == old(self).entries().len()
                    && id.brand() == old(self).brand()) && final(self).entries() == attached(
                    old(self).entries(),
                    parent.position(),
                    kind,
                    name@,
                    a11y::chars_in(state),
                ),
            },
    {
        if let A11yNodeKind::Scene(scene) = kind {
            if let Err(e) = a11y::role_of(scene) {
                return Err(e);
            }
        }
        if self.nodes.len() >= MAX_A11Y_TREE_NODES {
            return Err(
                A11yError::TooManyNodes {
                    count: self.nodes.len() + 1,
                    cap: MAX_A11Y_TREE_NODES,
                },
            );
        }
        if parent.brand != self.brand || parent.as_usize() >= self.nodes.len() {
            return Err(A11yError::UnknownParent);
        }
        let ghost before = self.entries();
        let id = A11yNodeId { brand: self.brand, index: self.nodes.len() as u32 };
        let state = match state {
            Some(s) => Some(s.to_owned()),
            None => None,
        };
        let child = A11yNode { id, kind, name: name.to_owned(), state, children: Vec::new() };
        assert(child@ =~= Entry {
            kind,
            name: name@,
            state: a11y::chars_of_owned(state),
            children: Seq::empty(),
        });
        self.nodes.push(child);
        let ghost middle = self.nodes@;
        self.nodes[parent.as_usize()].children.push(id);
        proof {
            let more = attached(
                before,
                parent.position(),
                kind,
                name@,
                a11y::chars_of_owned(state),
            );
            assert forall|i: int| 0 <= i < more.len() implies self.entries()[i] == more[i] by {
                if i == parent.position() {
                    assert(self.nodes@[i]@ =~= more[i]);
                } else {
                    assert(self.nodes@[i] == middle[i]);
                }
            }
            assert(self.entries() =~= more);
            assert forall|i: int| 0 <= i < self.nodes@.len() implies (
            #[trigger] self.nodes@[i]).place() == i && self.nodes@[i].is_of(self.brand()) by {
                if i == parent.position() {
                    assert(self.nodes@[i].links() == middle[i].links().push(id));
                    assert(middle[i].is_of(self.brand()));
                    assert forall|j: int| 0 <= j < self.nodes@[i].links().len() implies (
                    #[trigger] self.nodes@[i].links()[j]).brand() == self.brand() by {
                        if j < middle[i].links().len() {
                            assert(self.nodes@[i].links()[j] == middle[i].links()[j]);
                        }
                    }
                } else {
                    assert(self.nodes@[i] == middle[i]);
                }
            }
            lemma_attached(
                before,
                parent.position(),
                kind,
                name@,
                a11y::chars_of_owned(state),
            );
        }
        Ok(id)
    }
}

fn same_state(a: &Option<String>, b: &Option<String>) -> (same: bool)
    ensures
        same == (a11y::chars_of_owned(*a) == a11y::chars_of_owned(*b)),
{
    match (a, b) {
        (Some(x), Some(y)) => text::same_text(x.as_str(), y.as_str()),
        (None, None) => true,
        _ => false,
    }
}

fn same_places(a: &Vec<A11yNodeId>, b: &Vec<A11yNodeId>) -> (same: bool)
    ensures
        same == (a@.len() == b@.len() && forall|i: int|
            0 <= i < a@.len() ==> (#[trigger] a@[i]).position() == b@[i].position()),
{
    if a.len() != b.len() {
        return false;
    }
    let mut i: usize = 0;
    while i < a.len()
        invariant
            0 <= i <= a.len(),
            a@.len() == b@.len(),
            forall|j: int| 0 <= j < i ==> (#[trigger] a@[j]).position() == b@[j].position(),
        decreases a.len() - i,
    {
        if a[i].index != b[i].index {
            assert(a@[i as int].position() != b@[i as int].position());
            return false;
        }
        i = i + 1;
    }
    true
}

/// Nodes are equal when they say the same and stand at the same position,
/// whatever their brand.
impl PartialEq for A11yNode {
    fn eq(&self, other: &Self) -> (same: bool) {
        let linked = same_places(&self.children, &other.children);
        proof {
            let (a, b) = (self@.children, other@.children);
            assert(a.len() == self.children@.len() && b.len() == other.children@.len());
            if linked {
                assert forall|i: int| 0 <= i < a.len() implies a[i] == b[i] by {
                    assert(self.children@[i].position() == other.children@[i].position());
                }
                assert(a =~= b);
            } else if a == b {
                assert forall|i: int| 0 <= i < self.children@.len() implies (
                #[trigger] self.children@[i]).position() == other.children@[i].position() by {
                    assert(a[i] == b[i]);
                }
            }
            if self@.kind == other@.kind && self@.name == other@.name && self@.state == other@.state
                && a == b {
                assert(self@ =~= other@);
            }
        }
        linked && self.id.index == other.id.index && self.kind == other.kind && text::same_text(
            self.name.as_str(),
            other.name.as_str(),
        ) && same_state(&self.state, &other.state)
    }
}

impl vstd::std_specs::cmp::PartialEqSpecImpl for A11yNode {
    open spec fn obeys_eq_spec() -> bool {
        true
    }

    open spec fn eq_spec(&self, other: &Self) -> bool {
        self@ == other@ && self.place() == other.place()
    }
}

/// Trees are equal when their nodes are, whatever their brand.
impl PartialEq for A11yTree {
    fn eq(&self, other: &Self) -> (same: bool) {
        if self.nodes.len() != other.nodes.len() || self.root.index != other.root.index {
            return false;
        }
        let mut i: usize = 0;
        while i < self.nodes.len()
            invariant
                0 <= i <= self.nodes.len(),
                self.nodes@.len() == other.nodes@.len(),
                forall|j: int|
                    0 <= j < i ==> (#[trigger] self.nodes@[j])@ == other.nodes@[j]@
                        && self.nodes@[j].place() == other.nodes@[j].place(),
            decreases self.nodes.len() - i,
        {
            if !(self.nodes[i] == other.nodes[i]) {
                assert(!(self.nodes@[i as int]@ == other.nodes@[i as int]@
                    && self.nodes@[i as int].place() == other.nodes@[i as int].place()));
                return false;
            }
            i = i + 1;
        }
        true
    }
}

impl vstd::std_specs::cmp::PartialEqSpecImpl for A11yTree {
    open spec fn obeys_eq_spec() -> bool {
        true
    }

    open spec fn eq_spec(&self, other: &Self) -> bool {
        self.reads_as(*other)
    }
}

/// A built tree is one tree below its root, of at most [`MAX_A11Y_TREE_NODES`]
/// nodes.
pub proof fn trees_are_trees(tree: A11yTree)
    requires
        tree.wf(),
    ensures
        is_tree(tree.entries()),
        tree.entries().len() <= MAX_A11Y_TREE_NODES,
{
}

/// A started tree is one tree below its root, of at most
/// [`MAX_A11Y_TREE_NODES`] nodes.
pub proof fn builders_hold_trees(builder: A11yTreeBuilder)
    requires
        builder.wf(),
    ensures
        is_tree(builder.entries()),
        builder.entries().len() <= MAX_A11Y_TREE_NODES,
{
}

/// Built trees are equal exactly when their nodes say the same.
pub proof fn equal_trees_say_the_same(a: A11yTree, b: A11yTree)
    requires
        a.wf(),
        b.wf(),
    ensures
        a.reads_as(b) <==> a.entries() == b.entries(),
{
    if a.entries() == b.entries() {
        assert forall|i: int| 0 <= i < a.nodes@.len() implies (#[trigger] a.nodes@[i])@
            == b.nodes@[i]@ by {
            assert(a.entries()[i] == b.entries()[i]);
        }
    }
    if a.reads_as(b) {
        assert(a.entries() =~= b.entries());
    }
}

/// A handle of another builder never attaches a node: the parent is unknown,
/// unless the node is refused for what it is.
pub proof fn foreign_handles_never_attach(
    entries: Seq<Entry>,
    brand: u64,
    parent: A11yNodeId,
    kind: A11yNodeKind,
    name: Seq<char>,
    state: Option<Seq<char>>,
)
    requires
        parent.brand() != brand,
    ensures
        push_fault(entries, brand, parent, kind, name, state) is Some,
        placing_fault(entries, brand, parent, kind) is Some,
        entries.len() < MAX_A11Y_TREE_NODES && role_for(kind) is Some ==> placing_fault(
            entries,
            brand,
            parent,
            kind,
        ) == Some(A11yError::UnknownParent),
{
}

impl Clone for A11yNode {
    fn clone(&self) -> (node: Self)
        ensures
            node@ == self@,
            node.handle() == self.handle(),
            node.links() == self.links(),
    {
        let state = match &self.state {
            Some(s) => Some(s.clone()),
            None => None,
        };
        let node = Self {
            id: self.id,
            kind: self.kind,
            name: self.name.clone(),
            state,
            children: self.children.clone(),
        };
        assert(node.children@ =~= self.children@);
        assert(node@ =~= self@);
        node
    }
}

impl Clone for A11yTree {
    fn clone(&self) -> (tree: Self)
        ensures
            tree.entries() == self.entries(),
            tree.brand() == self.brand(),
            self.wf() ==> tree.wf(),
    {
        let mut nodes: Vec<A11yNode> = Vec::new();
        while nodes.len() < self.nodes.len()
            invariant
                nodes@.len() <= self.nodes@.len(),
                forall|i: int|
                    0 <= i < nodes@.len() ==> (#[trigger] nodes@[i])@ == self.nodes@[i]@
                        && nodes@[i].handle() == self.nodes@[i].handle() && nodes@[i].links()
                        == self.nodes@[i].links(),
            decreases self.nodes.len() - nodes.len(),
        {
            let i: usize = nodes.len();
            nodes.push(self.nodes[i].clone());
        }
        let tree = Self { nodes, root: self.root };
        assert(tree.entries() =~= self.entries());
        tree
    }
}

/// How a cursor is announced.
pub open spec fn cursor_state(cursor: Cursor) -> Seq<char> {
    "cursor "@ + text::decimal(cursor.position.row as nat) + ","@ + text::decimal(
        cursor.position.col as nat,
    ) + " "@ + if cursor.visible {
        "visible"@
    } else {
        "hidden"@
    }
}

/// The integers from `from` up to `to`.
pub open spec fn range(from: int, to: int) -> Seq<int> {
    Seq::new((to - from) as nat, |i: int| from + i)
}

/// The nodes of a window: the root, the terminal, its rows, the chrome and the
/// scene, in this order. The rows hang under the terminal, all else under the
/// root.
pub open spec fn window_entries(
    title: Seq<char>,
    cursor: Seq<char>,
    rows: Seq<Seq<char>>,
    chrome: Seq<Chrome>,
    scene: Seq<SceneKind>,
) -> Seq<Entry> {
    let r = 2 + rows.len();
    let c = r + chrome.len();
    let n = c + scene.len();
    Seq::new(
        n,
        |i: int|
            if i == 0 {
                Entry {
                    kind: A11yNodeKind::Root,
                    name: title,
                    state: None,
                    children: seq![1int] + range(r as int, n as int),
                }
            } else if i == 1 {
                Entry {
                    kind: A11yNodeKind::Terminal,
                    name: title,
                    state: Some(cursor),
                    children: range(2, r as int),
                }
            } else if i < r {
                Entry {
                    kind: A11yNodeKind::TerminalRow,
                    name: rows[i - 2],
                    state: None,
                    children: Seq::empty(),
                }
            } else if i < c {
                Entry {
                    kind: A11yNodeKind::Chrome(chrome[i - r].kind),
                    name: chrome[i - r].name,
                    state: chrome[i - r].state,
                    children: Seq::empty(),
                }
            } else {
                Entry {
                    kind: A11yNodeKind::Scene(scene[i - c]),
                    name: match a11y::mapped_role(scene[i - c]) {
                        Some(role) => role.spelled(),
                        None => Seq::empty(),
                    },
                    state: None,
                    children: Seq::empty(),
                }
            },
    )
}

/// The texts of the rows that have any.
pub open spec fn row_texts(snapshot: Snapshot) -> Seq<Seq<char>> {
    Seq::new(a11y::lines_of(snapshot).len(), |i: int| a11y::lines_of(snapshot)[i].text)
}

/// What a list of chrome surfaces exposes.
pub open spec fn chrome_in(nodes: Seq<ChromeNode>) -> Seq<Chrome> {
    Seq::new(nodes.len(), |i: int| nodes[i]@)
}

/// Why a window gets no tree.
pub open spec fn window_fault(
    snapshot: Snapshot,
    chrome: Seq<ChromeNode>,
    scene: Seq<SceneKind>,
) -> Option<A11yError> {
    if !a11y::all_mapped(scene) {
        Some(A11yError::UnmappedSceneKind)
    } else if a11y::name_fault(snapshot.title@) is Some {
        a11y::name_fault(snapshot.title@)
    } else if 2 + row_texts(snapshot).len() + chrome.len() + scene.len() > MAX_A11Y_TREE_NODES {
        Some(
            A11yError::TooManyNodes {
                count: (MAX_A11Y_TREE_NODES + 1) as usize,
                cap: MAX_A11Y_TREE_NODES,
            },
        )
    } else {
        None
    }
}

proof fn lemma_first_two(title: Seq<char>, cursor: Seq<char>)
    ensures
        attached(
            seq![
                Entry {
                    kind: A11yNodeKind::Root,
                    name: title,
                    state: None,
                    children: Seq::empty(),
                },
            ],
            0,
            A11yNodeKind::Terminal,
            title,
            Some(cursor),
        ) == window_entries(title, cursor, Seq::empty(), Seq::empty(), Seq::empty()),
{
    let root = Entry {
        kind: A11yNodeKind::Root,
        name: title,
        state: None,
        children: Seq::empty(),
    };
    let a = attached(seq![root], 0, A11yNodeKind::Terminal, title, Some(cursor));
    let b = window_entries(title, cursor, Seq::empty(), Seq::empty(), Seq::empty());
    assert(a[0] =~= b[0]);
    assert(a[1] =~= b[1]);
    assert(a =~= b);
}

proof fn lemma_add_row(
    title: Seq<char>,
    cursor: Seq<char>,
    rows: Seq<Seq<char>>,
    row: Seq<char>,
)
    ensures
        attached(
            window_entries(title, cursor, rows, Seq::empty(), Seq::empty()),
            1,
            A11yNodeKind::TerminalRow,
            row,
            None,
        ) == window_entries(title, cursor, rows.push(row), Seq::empty(), Seq::empty()),
{
    let w = window_entries(title, cursor, rows, Seq::empty(), Seq::empty());
    let a = attached(w, 1, A11yNodeKind::TerminalRow, row, None);
    let b = window_entries(title, cursor, rows.push(row), Seq::empty(), Seq::empty());
    assert forall|i: int| 0 <= i < a.len() implies a[i] == b[i] by {
        assert(a[i] =~= b[i]);
    }
    assert(a =~= b);
}

proof fn lemma_add_chrome(
    title: Seq<char>,
    cursor: Seq<char>,
    rows: Seq<Seq<char>>,
    chrome: Seq<Chrome>,
    one: Chrome,
)
    ensures
        attached(
            window_entries(title, cursor, rows, chrome, Seq::empty()),
            0,
            A11yNodeKind::Chrome(one.kind),
            one.name,
            one.state,
        ) == window_entries(title, cursor, rows, chrome.push(one), Seq::empty()),
{
    let w = window_entries(title, cursor, rows, chrome, Seq::empty());
    let a = attached(w, 0, A11yNodeKind::Chrome(one.kind), one.name, one.state);
    let b = window_entries(title, cursor, rows, chrome.push(one), Seq::empty());
    assert forall|i: int| 0 <= i < a.len() implies a[i] == b[i] by {
        assert(a[i] =~= b[i]);
    }
    assert(a =~= b);
}

proof fn lemma_add_scene(
    title: Seq<char>,
    cursor: Seq<char>,
    rows: Seq<Seq<char>>,
    chrome: Seq<Chrome>,
    scene: Seq<SceneKind>,
    kind: SceneKind,
)
    requires
        a11y::mapped_role(kind) is Some,
    ensures
        attached(
            window_entries(title, cursor, rows, chrome, scene),
            0,
            A11yNodeKind::Scene(kind),
            a11y::mapped_role(kind)->0.spelled(),
            None,
        ) == window_entries(title, cursor, rows, chrome, scene.push(kind)),
{
    let w = window_entries(title, cursor, rows, chrome, scene);
    let a = attached(
        w,
        0,
        A11yNodeKind::Scene(kind),
        a11y::mapped_role(kind)->0.spelled(),
        None,
    );
    let b = window_entries(title, cursor, rows, chrome, scene.push(kind));
    assert forall|i: int| 0 <= i < a.len() implies a[i] == b[i] by {
        assert(a[i] =~= b[i]);
    }
    assert(a =~= b);
}

proof fn lemma_cursor_state(cursor: Cursor)
    ensures
        a11y::name_fault(cursor_state(cursor)) is None,
{
    reveal_strlit("cursor ");
    reveal_strlit(",");
    reveal_strlit(" ");
    reveal_strlit("visible");
    reveal_strlit("hidden");
    text::lemma_decimal_len_u64(cursor.position.row as u64);
    text::lemma_decimal_len_u64(cursor.position.col as u64);
}

proof fn lemma_role_name(role: A11yRole)
    ensures
        a11y::name_fault(role.spelled()) is None,
{
    reveal_strlit("text");
    reveal_strlit("group");
    reveal_strlit("code");
    reveal_strlit("table");
    reveal_strlit("list");
    reveal_strlit("button");
    reveal_strlit("input");
    reveal_strlit("separator");
    reveal_strlit("image");
}

fn announce(cursor: &Cursor) -> (out: String)
    ensures
        out@ == cursor_state(*cursor),
{
    let head = text::tagged_numbers(
        "cursor ",
        cursor.position.row as u64,
        ",",
        cursor.position.col as u64,
        " ",
    );
    if cursor.visible {
        text::joined(head.as_str(), "visible")
    } else {
        text::joined(head.as_str(), "hidden")
    }
}

/// Builds the tree of a window. The scene is checked before anything is
/// attached, and a tree that does not fit is refused as a whole.
#[verifier::rlimit(40)]
pub fn build_a11y_tree(snapshot: &Snapshot, chrome: &[ChromeNode], scene: &[SceneKind]) -> (r:
    Result<A11yTree, A11yError>)
    ensures
        match window_fault(*snapshot, chrome@, scene@) {
            Some(e) => r == Err::<A11yTree, A11yError>(e),
            None => r matches Ok(tree) && tree.wf() && tree.entries() == window_entries(
                snapshot.title@,
                cursor_state(snapshot.cursor),
                row_texts(*snapshot),
                chrome_in(chrome@),
                scene@,
            ),
        },
{
    match a11y::validate_scene(scene) {
        Ok(_) => {},
        Err(e) => return Err(e),
    }
    let title = snapshot.title.as_str();
    let mut builder = match A11yTreeBuilder::new(title) {
        Ok(builder) => builder,
        Err(e) => return Err(e),
    };
    let root = builder.root();
    let state = announce(&snapshot.cursor);
    let ghost cursor = cursor_state(snapshot.cursor);
    proof {
        lemma_cursor_state(snapshot.cursor);
        lemma_first_two(title@, cursor);
    }
    let terminal = match builder.push(root, A11yNodeKind::Terminal, title, Some(state.as_str())) {
        Ok(id) => id,
        Err(e) => return Err(e),
    };
    let runs = a11y::terminal_text_runs(snapshot);
    let ghost rows = row_texts(*snapshot);
    let ghost lines = a11y::lines_of(*snapshot);
    assert(a11y::run_lines(runs@).len() == runs@.len());
    let mut i: usize = 0;
    assert(rows.take(0) =~= Seq::<Seq<char>>::empty());
    while i < runs.len()
        invariant
            0 <= i <= runs.len(),
            a11y::run_lines(runs@) == lines,
            lines == a11y::lines_of(*snapshot),
            rows == row_texts(*snapshot),
            runs@.len() == rows.len(),
            terminal.position() == 1,
            terminal.brand() == builder.brand(),
            root.position() == 0,
            root.brand() == builder.brand(),
            a11y::all_mapped(scene@),
            a11y::name_fault(snapshot.title@) is None,
            builder.wf(),
            builder.entries() == window_entries(
                title@,
                cursor,
                rows.take(i as int),
                Seq::empty(),
                Seq::empty(),
            ),
        decreases runs.len() - i,
    {
        proof {
            assert(a11y::run_lines(runs@)[i as int].text == runs@[i as int].text@);
            assert(rows[i as int] == runs@[i as int].text@);
            lemma_add_row(title@, cursor, rows.take(i as int), rows[i as int]);
            assert(rows.take(i + 1) =~= rows.take(i as int).push(rows[i as int]));
        }
        match builder.push_row_text(terminal, runs[i].text.as_str()) {
            Ok(_) => {},
            Err(e) => return Err(e),
        }
        i = i + 1;
    }
    assert(rows.take(i as int) =~= rows);
    let ghost surfaces = chrome_in(chrome@);
    let mut k: usize = 0;
    assert(surfaces.take(0) =~= Seq::<Chrome>::empty());
    while k < chrome.len()
        invariant
            0 <= k <= chrome.len(),
            rows == row_texts(*snapshot),
            surfaces == chrome_in(chrome@),
            root.position() == 0,
            root.brand() == builder.brand(),
            a11y::all_mapped(scene@),
            a11y::name_fault(snapshot.title@) is None,
            builder.wf(),
            builder.entries() == window_entries(
                title@,
                cursor,
                rows,
                surfaces.take(k as int),
                Seq::empty(),
            ),
        decreases chrome.len() - k,
    {
        let node = &chrome[k];
        proof {
            lemma_add_chrome(title@, cursor, rows, surfaces.take(k as int), surfaces[k as int]);
            assert(surfaces.take(k + 1) =~= surfaces.take(k as int).push(surfaces[k as int]));
        }
        match builder.push(
            root,
            A11yNodeKind::Chrome(node.kind()),
            node.accessible_name(),
            node.active_item(),
        ) {
            Ok(_) => {},
            Err(e) => return Err(e),
        }
        k = k + 1;
    }
    assert(surfaces.take(k as int) =~= surfaces);
    let mut m: usize = 0;
    assert(scene@.take(0) =~= Seq::<SceneKind>::empty());
    while m < scene.len()
        invariant
            0 <= m <= scene.len(),
            rows == row_texts(*snapshot),
            surfaces == chrome_in(chrome@),
            root.position() == 0,
            root.brand() == builder.brand(),
            a11y::all_mapped(scene@),
            a11y::name_fault(snapshot.title@) is None,
            builder.wf(),
            builder.entries() == window_entries(
                title@,
                cursor,
                rows,
                surfaces,
                scene@.take(m as int),
            ),
        decreases scene.len() - m,
    {
        let kind = scene[m];
        assert(a11y::mapped_role(scene@[m as int]) is Some);
        let role = match a11y::role_of(kind) {
            Ok(role) => role,
            Err(e) => return Err(e),
        };
        proof {
            lemma_role_name(role);
            lemma_add_scene(title@, cursor, rows, surfaces, scene@.take(m as int), kind);
            assert(scene@.take(m + 1) =~= scene@.take(m as int).push(kind));
        }
        match builder.push(root, A11yNodeKind::Scene(kind), role.as_str(), None) {
            Ok(_) => {},
            Err(e) => return Err(e),
        }
        m = m + 1;
    }
    assert(scene@.take(m as int) =~= scene@);
    Ok(builder.finish())
}

/// The role that each kind of node is read as. The root is a group, a terminal
/// and its rows are text, a scene node has the role of its kind, an interactive
/// one its declared role, and chrome names its own.
pub proof fn nodes_have_their_role(scene: SceneKind, chrome: ChromeKind, role: A11yRole)
    ensures
        role_for(A11yNodeKind::Root) == Some(A11yRole::Group),
        role_for(A11yNodeKind::Terminal) == Some(A11yRole::Text),
        role_for(A11yNodeKind::TerminalRow) == Some(A11yRole::Text),
        role_for(A11yNodeKind::Scene(scene)) == a11y::mapped_role(scene),
        role_for(A11yNodeKind::Chrome(chrome)) is None,
        role_for(A11yNodeKind::Interactive(role)) == Some(role),
{
}

/// A node that is attached comes last in the tree and last among the children of
/// its parent, without children of its own; no other node changes.
pub proof fn attached_nodes_come_last(
    entries: Seq<Entry>,
    parent: int,
    kind: A11yNodeKind,
    name: Seq<char>,
    state: Option<Seq<char>>,
    i: int,
)
    requires
        0 <= parent < entries.len(),
        0 <= i < entries.len(),
    ensures
        ({
            let after = attached(entries, parent, kind, name, state);
            let n = entries.len() as int;
            &&& after.len() == n + 1
            &&& after[n].kind == kind && after[n].name == name && after[n].state == state
                && after[n].children.len() == 0
            &&& after[parent].children == entries[parent].children.push(n)
            &&& after[i].kind == entries[i].kind && after[i].name == entries[i].name
                && after[i].state == entries[i].state
            &&& i != parent ==> after[i].children == entries[i].children
        }),
{
}

/// The subtree of a node is the node and then the subtrees of its children, from
/// the first to the last.
pub proof fn subtrees_start_with_their_node(entries: Seq<Entry>, id: int)
    requires
        0 <= id < entries.len(),
        forall|j: int|
            0 <= j < entries[id].children.len() ==> id < #[trigger] entries[id].children[j]
                < entries.len(),
    ensures
        entries[id].children.len() == 0 ==> subtree(entries, id) == seq![id],
        entries[id].children.len() == 1 ==> subtree(entries, id) == seq![id] + subtree(
            entries,
            entries[id].children[0],
        ),
        entries[id].children.len() == 2 ==> subtree(entries, id) == seq![id] + subtree(
            entries,
            entries[id].children[0],
        ) + subtree(entries, entries[id].children[1]),
        forall|j: int|
            0 <= j < entries[id].children.len() ==> #[trigger] below(entries, id, j) == subtree(
                entries,
                entries[id].children[j],
            ) + below(entries, id, j + 1),
        below(entries, id, entries[id].children.len() as int) == Seq::<int>::empty(),
        subtree(entries, id) == seq![id] + below(entries, id, 0),
{
    let n = entries[id].children.len() as int;
    assert forall|j: int| 0 <= j < n implies #[trigger] below(entries, id, j) == subtree(
        entries,
        entries[id].children[j],
    ) + below(entries, id, j + 1) by {
        assert(id < entries[id].children[j] < entries.len());
    }
    assert(below(entries, id, n) =~= Seq::<int>::empty());
    if n == 0 {
        assert(subtree(entries, id) =~= seq![id]);
    } else if n == 1 {
        assert(below(entries, id, 0) =~= subtree(entries, entries[id].children[0]));
    } else if n == 2 {
        assert(below(entries, id, 1) =~= subtree(entries, entries[id].children[1]));
        assert(below(entries, id, 0) =~= subtree(entries, entries[id].children[0]) + subtree(
            entries,
            entries[id].children[1],
        ));
        assert(subtree(entries, id) =~= seq![id] + subtree(entries, entries[id].children[0])
            + subtree(entries, entries[id].children[1]));
    }
}

/// A node is refused for a name or a state that is too long, then for a scene
/// kind without a role, then when the tree holds 4096 nodes, and then when its
/// parent is none of the tree.
pub proof fn pushes_are_refused_in_order(
    entries: Seq<Entry>,
    brand: u64,
    parent: A11yNodeId,
    kind: A11yNodeKind,
    name: Seq<char>,
    state: Option<Seq<char>>,
)
    ensures
        ({
            let long = name.len() > 256 || (state matches Some(s) && s.len() > 256);
            let unmapped = kind == A11yNodeKind::Scene(SceneKind::Unknown);
            let full = entries.len() >= 4096;
            let foreign = parent.brand() != brand || parent.position() >= entries.len();
            match push_fault(entries, brand, parent, kind, name, state) {
                Some(A11yError::NameTooLong { cap, .. }) => long && cap == 256,
                Some(A11yError::UnmappedSceneKind) => !long && unmapped,
                Some(A11yError::TooManyNodes { cap, .. }) => !long && !unmapped && full && cap
                    == 4096,
                Some(A11yError::UnknownParent) => !long && !unmapped && !full && foreign,
                Some(_) => false,
                None => !long && !unmapped && !full && !foreign,
            }
        }),
{
}

/// A window is read as its root, which holds the terminal, the chrome and the
/// scene; the terminal, which says where its cursor is, holds its rows.
pub proof fn windows_list_their_parts(
    title: Seq<char>,
    cursor: Seq<char>,
    rows: Seq<Seq<char>>,
    chrome: Seq<Chrome>,
    scene: Seq<SceneKind>,
    k: int,
)
    ensures
        ({
            let all = window_entries(title, cursor, rows, chrome, scene);
            let r = 2 + rows.len() as int;
            let c = r + chrome.len() as int;
            &&& all.len() == c + scene.len()
            &&& all[0].kind is Root && all[0].name == title && all[0].state is None
            &&& all[0].children.len() == 1 + chrome.len() + scene.len() && all[0].children[0] == 1
            &&& 1 <= k < all[0].children.len() ==> all[0].children[k] == r + k - 1
            &&& all[1].kind is Terminal && all[1].name == title && all[1].state == Some(cursor)
            &&& all[1].children.len() == rows.len()
            &&& 0 <= k < rows.len() ==> all[1].children[k] == 2 + k && all[2 + k].kind
                is TerminalRow && all[2 + k].name == rows[k] && all[2 + k].state is None && all[2
                + k].children.len() == 0
            &&& 0 <= k < chrome.len() ==> all[r + k].kind == A11yNodeKind::Chrome(chrome[k].kind)
                && all[r + k].name == chrome[k].name && all[r + k].state == chrome[k].state && all[r
                + k].children.len() == 0
            &&& 0 <= k < scene.len() ==> all[c + k].kind == A11yNodeKind::Scene(scene[k]) && all[c
                + k].state is None && all[c + k].children.len() == 0 && (a11y::mapped_role(
                scene[k],
            ) matches Some(role) ==> all[c + k].name == role.spelled())
        }),
{
}

/// A window is refused for a scene node without a role, then for a title of more
/// than 256 characters, then when its parts would be more than 4096 nodes.
pub proof fn windows_are_refused_in_order(
    snapshot: Snapshot,
    chrome: Seq<ChromeNode>,
    scene: Seq<SceneKind>,
)
    ensures
        ({
            let unmapped = exists|i: int|
                0 <= i < scene.len() && #[trigger] scene[i] == SceneKind::Unknown;
            let long = snapshot.title@.len() > 256;
            let many = 2 + a11y::lines_of(snapshot).len() + chrome.len() + scene.len() > 4096;
            match window_fault(snapshot, chrome, scene) {
                Some(A11yError::UnmappedSceneKind) => unmapped,
                Some(A11yError::NameTooLong { cap, .. }) => !unmapped && long && cap == 256,
                Some(A11yError::TooManyNodes { count, cap }) => !unmapped && !long && many && count
                    == 4097 && cap == 4096,
                Some(_) => false,
                None => !unmapped && !long && !many,
            }
        }),
{
    if !a11y::all_mapped(scene) {
        let i = choose|i: int|
            0 <= i < scene.len() && a11y::mapped_role(#[trigger] scene[i]) is None;
        assert(scene[i] == SceneKind::Unknown);
    } else {
        assert forall|i: int| 0 <= i < scene.len() implies #[trigger] scene[i]
            != SceneKind::Unknown by {
            assert(a11y::mapped_role(scene[i]) is Some);
        }
    }
}

/// The state of a terminal says the row and the column of its cursor, and whether
/// it shows.
pub proof fn cursors_are_told_by_row_and_column(cursor: Cursor)
    ensures
        cursor_state(cursor) == "cursor "@ + text::decimal(cursor.position.row as nat) + ","@
            + text::decimal(cursor.position.col as nat) + (if cursor.visible {
            " visible"@
        } else {
            " hidden"@
        }),
{
    reveal_strlit(" ");
    reveal_strlit("visible");
    reveal_strlit("hidden");
    reveal_strlit(" visible");
    reveal_strlit(" hidden");
    assert(" "@ + "visible"@ =~= " visible"@);
    assert(" "@ + "hidden"@ =~= " hidden"@);
    let head = "cursor "@ + text::decimal(cursor.position.row as nat) + ","@ + text::decimal(
        cursor.position.col as nat,
    );
    assert(head + " "@ + "visible"@ =~= head + (" "@ + "visible"@));
    assert(head + " "@ + "hidden"@ =~= head + (" "@ + "hidden"@));
}

} // verus!
