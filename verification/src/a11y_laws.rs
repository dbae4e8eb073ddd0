//! Laws of accessibility trees: a traversal meets every node once, and a window
//! is read as terminal, chrome and scene.

use crate::a11y;
use crate::a11y::{Chrome, SceneKind};
use crate::a11y_tree;
use crate::a11y_tree::{A11yTree, Entry};
use vstd::prelude::*;

verus! {

proof fn lemma_below_has(entries: Seq<Entry>, id: int, j: int, x: int) -> (k: int)
    requires
        0 <= id < entries.len(),
        0 <= j,
        a11y_tree::below(entries, id, j).contains(x),
    ensures
        j <= k < entries[id].children.len(),
        id < entries[id].children[k] < entries.len(),
        a11y_tree::subtree(entries, entries[id].children[k]).contains(x),
    decreases entries[id].children.len() - j,
{
    let all = a11y_tree::below(entries, id, j);
    let child = entries[id].children[j];
    let first = if id < child < entries.len() {
        a11y_tree::subtree(entries, child)
    } else {
        Seq::empty()
    };
    let rest = a11y_tree::below(entries, id, j + 1);
    assert(all =~= first + rest);
    let at = choose|at: int| 0 <= at < all.len() && all[at] == x;
    if at < first.len() {
        assert(first[at] == x);
        j
    } else {
        assert(rest[at - first.len()] == x);
        lemma_below_has(entries, id, j + 1, x)
    }
}

proof fn lemma_below_holds(entries: Seq<Entry>, id: int, j: int, k: int, x: int)
    requires
        0 <= id < entries.len(),
        0 <= j <= k < entries[id].children.len(),
        id < entries[id].children[k] < entries.len(),
        a11y_tree::subtree(entries, entries[id].children[k]).contains(x),
    ensures
        a11y_tree::below(entries, id, j).contains(x),
    decreases k - j,
{
    let all = a11y_tree::below(entries, id, j);
    let child = entries[id].children[j];
    let first = if id < child < entries.len() {
        a11y_tree::subtree(entries, child)
    } else {
        Seq::empty()
    };
    let rest = a11y_tree::below(entries, id, j + 1);
    assert(all =~= first + rest);
    if j == k {
        let at = choose|at: int| 0 <= at < first.len() && first[at] == x;
        assert(all[at] == x);
    } else {
        lemma_below_holds(entries, id, j + 1, k, x);
        let at = choose|at: int| 0 <= at < rest.len() && rest[at] == x;
        assert(all[first.len() + at] == x);
    }
}

proof fn lemma_subtree_split(entries: Seq<Entry>, id: int, x: int)
    requires
        0 <= id < entries.len(),
    ensures
        a11y_tree::subtree(entries, id).contains(x) <==> x == id || a11y_tree::below(
            entries,
            id,
            0,
        ).contains(x),
{
    let all = a11y_tree::subtree(entries, id);
    let rest = a11y_tree::below(entries, id, 0);
    assert(all =~= seq![id] + rest);
    if all.contains(x) {
        let at = choose|at: int| 0 <= at < all.len() && all[at] == x;
        if at > 0 {
            assert(rest[at - 1] == x);
        }
    }
    assert(all[0] == id);
    if rest.contains(x) {
        let at = choose|at: int| 0 <= at < rest.len() && rest[at] == x;
        assert(all[at + 1] == x);
    }
}

proof fn lemma_subtree_range(entries: Seq<Entry>, id: int, x: int)
    requires
        0 <= id < entries.len(),
        a11y_tree::subtree(entries, id).contains(x),
    ensures
        id <= x < entries.len(),
    decreases entries.len() - id,
{
    lemma_subtree_split(entries, id, x);
    if x != id {
        let k = lemma_below_has(entries, id, 0, x);
        lemma_subtree_range(entries, entries[id].children[k], x);
    }
}

proof fn lemma_parent_inside(entries: Seq<Entry>, up: Seq<int>, id: int, x: int)
    requires
        a11y_tree::hangs_by(entries, up),
        0 <= id < entries.len(),
        a11y_tree::subtree(entries, id).contains(x),
        x != id,
    ensures
        a11y_tree::subtree(entries, id).contains(up[x]),
    decreases entries.len() - id,
{
    lemma_subtree_split(entries, id, x);
    let k = lemma_below_has(entries, id, 0, x);
    let child = entries[id].children[k];
    assert(up[child] == id);
    if x == child {
        lemma_subtree_split(entries, id, id);
    } else {
        lemma_parent_inside(entries, up, child, x);
        lemma_below_holds(entries, id, 0, k, up[x]);
        lemma_subtree_split(entries, id, up[x]);
    }
}

proof fn lemma_siblings_apart(
    entries: Seq<Entry>,
    up: Seq<int>,
    a: int,
    b: int,
    x: int,
)
    requires
        a11y_tree::hangs_by(entries, up),
        1 <= a < b < entries.len(),
        up[a] == up[b],
        a11y_tree::subtree(entries, a).contains(x),
    ensures
        !a11y_tree::subtree(entries, b).contains(x),
    decreases x,
{
    lemma_subtree_range(entries, a, x);
    if a11y_tree::subtree(entries, b).contains(x) {
        lemma_subtree_range(entries, b, x);
        lemma_parent_inside(entries, up, a, x);
        if x == b {
            lemma_subtree_range(entries, a, up[x]);
        } else {
            lemma_parent_inside(entries, up, b, x);
            lemma_siblings_apart(entries, up, a, b, up[x]);
        }
    }
}

proof fn lemma_no_repeats(entries: Seq<Entry>, up: Seq<int>, id: int)
    requires
        a11y_tree::hangs_by(entries, up),
        0 <= id < entries.len(),
    ensures
        a11y_tree::subtree(entries, id).no_duplicates(),
    decreases entries.len() - id, 1int, 0int,
{
    let all = a11y_tree::subtree(entries, id);
    let rest = a11y_tree::below(entries, id, 0);
    assert(all =~= seq![id] + rest);
    lemma_no_repeats_below(entries, up, id, 0);
    assert forall|i: int, j: int| 0 <= i < all.len() && 0 <= j < all.len() && i
        != j implies all[i] != all[j] by {
        if i > 0 && j > 0 {
            assert(rest[i - 1] != rest[j - 1]);
        } else {
            let k = if i == 0 {
                j
            } else {
                i
            };
            assert(rest[k - 1] == all[k]);
            assert(rest.contains(all[k]));
            let c = lemma_below_has(entries, id, 0, all[k]);
            lemma_subtree_range(entries, entries[id].children[c], all[k]);
        }
    }
}

proof fn lemma_no_repeats_below(entries: Seq<Entry>, up: Seq<int>, id: int, j: int)
    requires
        a11y_tree::hangs_by(entries, up),
        0 <= id < entries.len(),
        0 <= j <= entries[id].children.len(),
    ensures
        a11y_tree::below(entries, id, j).no_duplicates(),
    decreases entries.len() - id, 0int, entries[id].children.len() - j,
{
    if j < entries[id].children.len() {
        let child = entries[id].children[j];
        let first = a11y_tree::subtree(entries, child);
        let rest = a11y_tree::below(entries, id, j + 1);
        let all = a11y_tree::below(entries, id, j);
        assert(up[entries[id].children[j]] == id);
        assert(all =~= first + rest);
        lemma_no_repeats(entries, up, child);
        lemma_no_repeats_below(entries, up, id, j + 1);
        assert forall|a: int, b: int| 0 <= a < first.len() && 0 <= b < rest.len() implies first[a]
            != rest[b] by {
            if first[a] == rest[b] {
                let x = first[a];
                assert(first.contains(x));
                assert(rest.contains(x));
                let k = lemma_below_has(entries, id, j + 1, x);
                let other = entries[id].children[k];
                assert(up[entries[id].children[k]] == id);
                assert(entries[id].children.no_duplicates());
                if child < other {
                    lemma_siblings_apart(entries, up, child, other, x);
                } else {
                    lemma_siblings_apart(entries, up, other, child, x);
                }
            }
        }
        assert forall|a: int, b: int| 0 <= a < all.len() && 0 <= b < all.len() && a
            != b implies all[a] != all[b] by {
            if a < first.len() && b < first.len() {
                assert(first[a] != first[b]);
            } else if a >= first.len() && b >= first.len() {
                assert(rest[a - first.len()] != rest[b - first.len()]);
            } else if a < first.len() {
                assert(first[a] != rest[b - first.len()]);
            } else {
                assert(first[b] != rest[a - first.len()]);
            }
        }
    }
}

proof fn lemma_child_inside(entries: Seq<Entry>, up: Seq<int>, id: int, p: int, j: int)
    requires
        a11y_tree::hangs_by(entries, up),
        0 <= id < entries.len(),
        a11y_tree::subtree(entries, id).contains(p),
        0 <= p < entries.len(),
        0 <= j < entries[p].children.len(),
    ensures
        a11y_tree::subtree(entries, id).contains(entries[p].children[j]),
    decreases entries.len() - id,
{
    let child = entries[p].children[j];
    assert(p < entries[p].children[j] < entries.len());
    lemma_subtree_split(entries, id, p);
    if p == id {
        lemma_subtree_split(entries, child, child);
        lemma_below_holds(entries, id, 0, j, child);
        lemma_subtree_split(entries, id, child);
    } else {
        let k = lemma_below_has(entries, id, 0, p);
        lemma_child_inside(entries, up, entries[id].children[k], p, j);
        lemma_below_holds(entries, id, 0, k, child);
        lemma_subtree_split(entries, id, child);
    }
}

proof fn lemma_reached(entries: Seq<Entry>, up: Seq<int>, x: int)
    requires
        a11y_tree::hangs_by(entries, up),
        0 <= x < entries.len(),
    ensures
        a11y_tree::subtree(entries, 0).contains(x),
    decreases x,
{
    if x == 0 {
        lemma_subtree_split(entries, 0, 0);
    } else {
        assert(0 <= up[x] < x);
        lemma_reached(entries, up, up[x]);
        let j = choose|j: int|
            0 <= j < entries[up[x]].children.len() && entries[up[x]].children[j] == x;
        lemma_child_inside(entries, up, 0, up[x], j);
    }
}

/// A traversal from the root meets every node, and none twice.
pub proof fn traversals_meet_each_node_once(entries: Seq<Entry>)
    requires
        a11y_tree::is_tree(entries),
    ensures
        a11y_tree::subtree(entries, 0).no_duplicates(),
        forall|x: int|
            0 <= x < entries.len() <==> #[trigger] a11y_tree::subtree(entries, 0).contains(x),
{
    let up = choose|up: Seq<int>| a11y_tree::hangs_by(entries, up);
    lemma_no_repeats(entries, up, 0);
    assert forall|x: int|
        0 <= x < entries.len() <==> #[trigger] a11y_tree::subtree(entries, 0).contains(x) by {
        if 0 <= x < entries.len() {
            lemma_reached(entries, up, x);
        }
        if a11y_tree::subtree(entries, 0).contains(x) {
            lemma_subtree_range(entries, 0, x);
        }
    }
}

/// A traversal of a built tree meets every node, and none twice.
pub proof fn built_trees_are_read_once(tree: A11yTree)
    requires
        tree.wf(),
    ensures
        a11y_tree::subtree(tree.entries(), 0).no_duplicates(),
        forall|x: int|
            0 <= x < tree.entries().len() <==> #[trigger] a11y_tree::subtree(
                tree.entries(),
                0,
            ).contains(x),
{
    a11y_tree::trees_are_trees(tree);
    traversals_meet_each_node_once(tree.entries());
}

proof fn lemma_leaf(entries: Seq<Entry>, id: int)
    requires
        0 <= id < entries.len(),
        entries[id].children.len() == 0,
    ensures
        a11y_tree::subtree(entries, id) == seq![id],
{
    assert(a11y_tree::subtree(entries, id) =~= seq![id]);
}

proof fn lemma_leaves(entries: Seq<Entry>, id: int, j: int, from: int, to: int)
    requires
        0 <= id < from <= to <= entries.len(),
        0 <= j <= entries[id].children.len(),
        entries[id].children.len() - j == to - from,
        forall|k: int| j <= k < entries[id].children.len() ==> #[trigger] entries[id].children[k]
            == from + (k - j),
        forall|i: int| from <= i < to ==> (#[trigger] entries[i]).children.len() == 0,
    ensures
        a11y_tree::below(entries, id, j) == a11y_tree::range(from, to),
    decreases to - from,
{
    if from < to {
        assert(entries[id].children[j] == from);
        assert(entries[from].children.len() == 0);
        lemma_leaf(entries, from);
        lemma_leaves(entries, id, j + 1, from + 1, to);
        assert(a11y_tree::below(entries, id, j) =~= seq![from] + a11y_tree::range(from + 1, to));
    }
    assert(a11y_tree::below(entries, id, j) =~= a11y_tree::range(from, to));
}

/// The tree of a window is read in the order in which it was built: the root,
/// the terminal with its rows, the chrome, the scene.
pub proof fn windows_are_read_in_order(
    title: Seq<char>,
    cursor: Seq<char>,
    rows: Seq<Seq<char>>,
    chrome: Seq<Chrome>,
    scene: Seq<SceneKind>,
)
    ensures
        ({
            let entries = a11y_tree::window_entries(title, cursor, rows, chrome, scene);
            a11y_tree::subtree(entries, 0) == a11y_tree::range(0, entries.len() as int)
        }),
{
    let entries = a11y_tree::window_entries(title, cursor, rows, chrome, scene);
    let r = 2 + rows.len() as int;
    let n = entries.len() as int;
    lemma_leaves(entries, 1, 0, 2, r);
    assert(a11y_tree::subtree(entries, 1) =~= seq![1int] + a11y_tree::range(2, r));
    assert forall|k: int| 1 <= k < entries[0].children.len() implies #[trigger] entries[0].children[k]
        == r + (k - 1) by {}
    lemma_leaves(entries, 0, 1, r, n);
    assert(entries[0].children[0] == 1);
    assert(a11y_tree::below(entries, 0, 0) =~= a11y_tree::subtree(entries, 1) + a11y_tree::range(
        r,
        n,
    ));
    assert(a11y_tree::subtree(entries, 0) =~= a11y_tree::range(0, n));
}

/// Every node of a window has a role, but for the chrome.
pub proof fn only_chrome_lacks_a_role(
    title: Seq<char>,
    cursor: Seq<char>,
    rows: Seq<Seq<char>>,
    chrome: Seq<Chrome>,
    scene: Seq<SceneKind>,
    i: int,
)
    requires
        a11y::all_mapped(scene),
        0 <= i < a11y_tree::window_entries(title, cursor, rows, chrome, scene).len(),
    ensures
        ({
            let kind = a11y_tree::window_entries(title, cursor, rows, chrome, scene)[i].kind;
            a11y_tree::role_for(kind) is None <==> kind is Chrome
        }),
{
    let at = i - 2 - rows.len() - chrome.len();
    if at >= 0 {
        assert(a11y::mapped_role(scene[at]) is Some);
    }
}

} // verus!
