//! Facts about sequences: the first element that meets a condition, the
//! elements that meet it, and how many there are.

use vstd::prelude::*;

verus! {

/// The position of the first element that meets `p`, or the length when there
/// is none.
pub open spec fn first_where<T>(s: Seq<T>, p: spec_fn(T) -> bool) -> int
    decreases s.len(),
{
    if s.len() == 0 {
        0
    } else if p(s[0]) {
        0
    } else {
        1 + first_where(s.drop_first(), p)
    }
}

/// The first element that meets `p`.
pub open spec fn find_where<T>(s: Seq<T>, p: spec_fn(T) -> bool) -> Option<T> {
    if first_where(s, p) < s.len() {
        Some(s[first_where(s, p)])
    } else {
        None
    }
}

/// [`first_where`] names the first element that meets the condition.
pub proof fn first_where_is_first<T>(s: Seq<T>, p: spec_fn(T) -> bool)
    ensures
        0 <= first_where(s, p) <= s.len(),
        first_where(s, p) < s.len() ==> p(s[first_where(s, p)]),
        forall|j: int| 0 <= j < first_where(s, p) ==> !p(#[trigger] s[j]),
    decreases s.len(),
{
    if s.len() > 0 && !p(s[0]) {
        let rest = s.drop_first();
        first_where_is_first(rest, p);
        assert forall|j: int| 0 <= j < first_where(s, p) implies !p(#[trigger] s[j]) by {
            if j > 0 {
                assert(s[j] == rest[j - 1]);
            }
        }
    }
}

/// A position before which nothing meets the condition, and whose element does
/// or which is the end, is the first one.
pub proof fn first_where_unique<T>(s: Seq<T>, p: spec_fn(T) -> bool, k: int)
    requires
        0 <= k <= s.len(),
        forall|j: int| 0 <= j < k ==> !p(#[trigger] s[j]),
        k < s.len() ==> p(s[k]),
    ensures
        first_where(s, p) == k,
{
    first_where_is_first(s, p);
    if first_where(s, p) < k {
        assert(!p(s[first_where(s, p)]));
    }
}

/// A new last element is found only when no earlier one meets the condition.
pub proof fn find_where_push<T>(s: Seq<T>, x: T, p: spec_fn(T) -> bool)
    ensures
        find_where(s.push(x), p) == (if find_where(s, p) is Some {
            find_where(s, p)
        } else if p(x) {
            Some(x)
        } else {
            None
        }),
{
    let more = s.push(x);
    let k = first_where(s, p);
    first_where_is_first(s, p);
    assert forall|j: int| 0 <= j < k implies !p(#[trigger] more[j]) by {
        assert(more[j] == s[j]);
    }
    if k < s.len() || p(x) {
        first_where_unique(more, p, k);
    } else {
        assert(!p(more[k]));
        first_where_unique(more, p, k + 1);
    }
}

/// How many elements meet `p`.
pub open spec fn count_where<T>(s: Seq<T>, p: spec_fn(T) -> bool) -> nat
    decreases s.len(),
{
    if s.len() == 0 {
        0
    } else {
        count_where(s.drop_last(), p) + if p(s.last()) {
            1nat
        } else {
            0nat
        }
    }
}

/// One more element adds one when it meets the condition.
pub proof fn count_where_push<T>(s: Seq<T>, p: spec_fn(T) -> bool, x: T)
    ensures
        count_where(s.push(x), p) == count_where(s, p) + if p(x) {
            1nat
        } else {
            0nat
        },
{
    assert(s.push(x).drop_last() =~= s);
}

/// Removing an element takes one away when it meets the condition.
pub proof fn count_where_remove<T>(s: Seq<T>, p: spec_fn(T) -> bool, i: int)
    requires
        0 <= i < s.len(),
    ensures
        count_where(s.remove(i), p) + (if p(s[i]) {
            1nat
        } else {
            0nat
        }) == count_where(s, p),
    decreases s.len(),
{
    if i == s.len() - 1 {
        assert(s.remove(i) =~= s.drop_last());
    } else {
        count_where_remove(s.drop_last(), p, i);
        assert(s.remove(i).drop_last() =~= s.drop_last().remove(i));
        assert(s.remove(i).last() == s.last());
    }
}

/// Elements that meet one condition or the other, never both, make up the
/// whole.
pub proof fn counts_add_up<T>(s: Seq<T>, p: spec_fn(T) -> bool, q: spec_fn(T) -> bool)
    requires
        forall|i: int| 0 <= i < s.len() ==> p(#[trigger] s[i]) != q(s[i]),
    ensures
        count_where(s, p) + count_where(s, q) == s.len(),
    decreases s.len(),
{
    if s.len() > 0 {
        assert(s.drop_last().len() == s.len() - 1);
        assert forall|i: int| 0 <= i < s.drop_last().len() implies p(#[trigger] s.drop_last()[i])
            != q(s.drop_last()[i]) by {
            assert(s.drop_last()[i] == s[i]);
        }
        counts_add_up(s.drop_last(), p, q);
        assert(s.last() == s[s.len() - 1]);
    }
}

/// Nothing meets the condition exactly when the count is zero.
pub proof fn count_where_zero<T>(s: Seq<T>, p: spec_fn(T) -> bool)
    ensures
        (count_where(s, p) == 0) == (forall|i: int| 0 <= i < s.len() ==> !p(#[trigger] s[i])),
    decreases s.len(),
{
    if s.len() > 0 {
        let front = s.drop_last();
        count_where_zero(front, p);
        assert(forall|i: int| 0 <= i < front.len() ==> front[i] == s[i]);
        if count_where(s, p) == 0 {
            assert forall|i: int| 0 <= i < s.len() implies !p(#[trigger] s[i]) by {
                if i < front.len() {
                    assert(!p(front[i]));
                }
            }
        } else if count_where(front, p) > 0 {
            let i = choose|i: int| 0 <= i < front.len() && p(#[trigger] front[i]);
            assert(p(s[i]));
        } else {
            assert(p(s[s.len() - 1]));
        }
    }
}

/// The elements of `s` that meet `p`, in order.
pub open spec fn kept<T>(s: Seq<T>, p: spec_fn(T) -> bool) -> Seq<T>
    decreases s.len(),
{
    if s.len() == 0 {
        Seq::empty()
    } else if p(s.last()) {
        kept(s.drop_last(), p).push(s.last())
    } else {
        kept(s.drop_last(), p)
    }
}

/// [`kept`] holds exactly the elements that meet the condition.
pub proof fn kept_holds<T>(s: Seq<T>, p: spec_fn(T) -> bool)
    ensures
        kept(s, p).len() == count_where(s, p),
        kept(s, p).len() <= s.len(),
        forall|i: int|
            0 <= i < kept(s, p).len() ==> p(#[trigger] kept(s, p)[i]) && s.contains(kept(s, p)[i]),
        forall|x: T| #[trigger] kept(s, p).contains(x) == (s.contains(x) && p(x)),
    decreases s.len(),
{
    if s.len() > 0 {
        let front = s.drop_last();
        kept_holds(front, p);
        assert(s =~= front.push(s.last()));
        assert forall|i: int| 0 <= i < kept(s, p).len() implies p(#[trigger] kept(s, p)[i])
            && s.contains(kept(s, p)[i]) by {
            if i < kept(front, p).len() {
                assert(kept(s, p)[i] == kept(front, p)[i]);
                assert(front.contains(kept(front, p)[i]));
                let k = choose|k: int| 0 <= k < front.len() && front[k] == kept(front, p)[i];
                assert(s[k] == kept(s, p)[i]);
            } else {
                assert(s[s.len() - 1] == kept(s, p)[i]);
            }
        }
        assert forall|x: T| #[trigger] kept(s, p).contains(x) == (s.contains(x) && p(x)) by {
            assert(kept(front, p).contains(x) == (front.contains(x) && p(x)));
            if s.contains(x) && p(x) {
                let k = choose|k: int| 0 <= k < s.len() && s[k] == x;
                if k < front.len() {
                    assert(front[k] == x);
                    let m = choose|m: int| 0 <= m < kept(front, p).len() && kept(front, p)[m] == x;
                    assert(kept(s, p)[m] == x);
                } else {
                    assert(kept(s, p)[kept(s, p).len() - 1] == x);
                }
            }
        }
    }
}

/// Keeping works run by run.
pub proof fn kept_of_runs<T>(a: Seq<T>, b: Seq<T>, p: spec_fn(T) -> bool)
    ensures
        kept(a + b, p) == kept(a, p) + kept(b, p),
    decreases b.len(),
{
    if b.len() == 0 {
        assert(a + b =~= a);
        assert(kept(a, p) + kept(b, p) =~= kept(a, p));
    } else {
        kept_of_runs(a, b.drop_last(), p);
        assert((a + b).drop_last() =~= a + b.drop_last());
        assert((a + b).last() == b.last());
        assert(kept(a + b, p) =~= kept(a, p) + kept(b, p));
    }
}

/// Nothing is kept when nothing meets the condition.
pub proof fn kept_none<T>(s: Seq<T>, p: spec_fn(T) -> bool)
    requires
        forall|i: int| 0 <= i < s.len() ==> !p(#[trigger] s[i]),
    ensures
        kept(s, p) == Seq::<T>::empty(),
    decreases s.len(),
{
    if s.len() > 0 {
        let front = s.drop_last();
        assert forall|i: int| 0 <= i < front.len() implies !p(#[trigger] front[i]) by {
            assert(front[i] == s[i]);
        }
        kept_none(front, p);
        assert(!p(s[s.len() - 1]));
    }
}

/// Keeping everything changes nothing.
pub proof fn kept_all<T>(s: Seq<T>, p: spec_fn(T) -> bool)
    requires
        forall|i: int| 0 <= i < s.len() ==> p(#[trigger] s[i]),
    ensures
        kept(s, p) == s,
    decreases s.len(),
{
    if s.len() > 0 {
        let front = s.drop_last();
        assert forall|i: int| 0 <= i < front.len() implies p(#[trigger] front[i]) by {
            assert(front[i] == s[i]);
        }
        kept_all(front, p);
        assert(p(s[s.len() - 1]));
        assert(s =~= front.push(s.last()));
    }
}

/// Keeping some elements of a sequence without repetitions leaves one without
/// repetitions.
pub proof fn kept_no_duplicates<T>(s: Seq<T>, p: spec_fn(T) -> bool)
    requires
        s.no_duplicates(),
    ensures
        kept(s, p).no_duplicates(),
    decreases s.len(),
{
    if s.len() > 0 {
        let front = s.drop_last();
        assert(front.no_duplicates());
        kept_no_duplicates(front, p);
        kept_holds(front, p);
        if p(s.last()) {
            assert forall|i: int, j: int|
                0 <= i < kept(s, p).len() && 0 <= j < kept(s, p).len() && i != j implies kept(
                s,
                p,
            )[i] != kept(s, p)[j] by {
                if i == kept(front, p).len() || j == kept(front, p).len() {
                    let m = if i == kept(front, p).len() {
                        j
                    } else {
                        i
                    };
                    assert(kept(s, p)[m] == kept(front, p)[m]);
                    assert(front.contains(kept(front, p)[m]));
                    let k = choose|k: int| 0 <= k < front.len() && front[k] == kept(front, p)[m];
                    assert(s[k] != s[s.len() - 1]);
                }
            }
        }
    }
}

proof fn kept_is_filtered<T>(s: Seq<T>, p: spec_fn(T) -> bool)
    ensures
        kept(s, p).to_multiset() == s.to_multiset().filter(p),
    decreases s.len(),
{
    broadcast use vstd::multiset::group_multiset_axioms;
    broadcast use vstd::seq_lib::group_to_multiset_ensures;

    if s.len() == 0 {
        assert(kept(s, p).to_multiset() =~= s.to_multiset().filter(p));
    } else {
        let front = s.drop_last();
        kept_is_filtered(front, p);
        assert(s =~= front.push(s.last()));
        assert(s.to_multiset() =~= front.to_multiset().insert(s.last()));
        assert(kept(s, p).to_multiset() =~= s.to_multiset().filter(p));
    }
}

/// Two sequences that differ only in order are equally long and hold the same
/// elements.
pub proof fn reordered_holds_the_same<T>(s: Seq<T>, t: Seq<T>, x: T)
    requires
        s.to_multiset() == t.to_multiset(),
    ensures
        s.len() == t.len(),
        s.contains(x) == t.contains(x),
{
    s.to_multiset_ensures();
    t.to_multiset_ensures();
    assert(s.contains(x) <==> s.to_multiset().count(x) > 0);
    assert(t.contains(x) <==> t.to_multiset().count(x) > 0);
    assert(s.len() == s.to_multiset().len());
    assert(t.len() == t.to_multiset().len());
}

/// Keeping the elements of two sequences that differ only in order leaves two
/// sequences that differ only in order.
pub proof fn kept_of_reordered<T>(s: Seq<T>, t: Seq<T>, p: spec_fn(T) -> bool)
    requires
        s.to_multiset() == t.to_multiset(),
    ensures
        kept(s, p).to_multiset() == kept(t, p).to_multiset(),
{
    kept_is_filtered(s, p);
    kept_is_filtered(t, p);
}

/// Mapping the elements of two sequences that differ only in order leaves two
/// sequences that differ only in order.
pub proof fn mapped_of_reordered<T, U>(s: Seq<T>, t: Seq<T>, f: spec_fn(T) -> U)
    requires
        s.to_multiset() == t.to_multiset(),
    ensures
        s.map_values(f).to_multiset() == t.map_values(f).to_multiset(),
    decreases s.len(),
{
    broadcast use vstd::multiset::group_multiset_axioms;
    broadcast use vstd::seq_lib::group_to_multiset_ensures;

    if s.len() == 0 {
        reordered_holds_the_same(s, t, arbitrary());
        assert(s.map_values(f) =~= t.map_values(f));
    } else {
        let last = s.len() - 1;
        let x = s[last];
        reordered_holds_the_same(s, t, x);
        assert(s.contains(x));
        let k = choose|k: int| 0 <= k < t.len() && t[k] == x;
        mapped_of_reordered(s.remove(last), t.remove(k), f);
        assert(s.remove(last).map_values(f) =~= s.map_values(f).remove(last));
        assert(t.remove(k).map_values(f) =~= t.map_values(f).remove(k));
        let (a, b) = (s.map_values(f).to_multiset(), t.map_values(f).to_multiset());
        assert(s.map_values(f)[last] == f(x) && t.map_values(f)[k] == f(x));
        assert(s.map_values(f).contains(f(x)) && t.map_values(f).contains(f(x)));
        assert(a.remove(f(x)) == b.remove(f(x)));
        assert(a =~= a.remove(f(x)).insert(f(x)));
        assert(b =~= b.remove(f(x)).insert(f(x)));
    }
}

/// What is kept is what a filter lets through, and a count is how many that are.
pub proof fn keeping_filters<T>(s: Seq<T>, p: spec_fn(T) -> bool)
    ensures
        kept(s, p) == s.filter(p),
        count_where(s, p) == s.filter(p).len(),
    decreases s.len(),
{
    reveal(Seq::filter);
    if s.len() > 0 {
        keeping_filters(s.drop_last(), p);
    }
}

} // verus!
