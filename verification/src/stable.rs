//! Stable sorting by a strict order: what `sort_by` on a slice leaves.

use vstd::prelude::*;
use crate::sorted::{first_where, lemma_first_where_bounds};

verus! {

/// `less` is irreflexive and transitive.
pub open spec fn strict_partial_order<A>(less: spec_fn(A, A) -> bool) -> bool {
    &&& forall|a: A| !(#[trigger] less(a, a))
    &&& forall|a: A, b: A, c: A| #[trigger] less(a, b) && #[trigger] less(b, c) ==> less(a, c)
}

/// The elements that `x` sorts before.
pub open spec fn sorts_after_by<A>(less: spec_fn(A, A) -> bool, x: A) -> spec_fn(A) -> bool {
    |e: A| less(x, e)
}

/// `s` sorted by `less` without reordering elements that neither sorts
/// before the other (a stable sort): each element goes after the ones
/// before it that it does not sort before.
pub open spec fn stable_sort_by<A>(s: Seq<A>, less: spec_fn(A, A) -> bool) -> Seq<A>
    decreases s.len(),
{
    if s.len() == 0 {
        s
    } else {
        let t = stable_sort_by(s.drop_last(), less);
        t.insert(first_where(t, sorts_after_by(less, s.last())), s.last())
    }
}

/// No element of `s` sorts before an element ahead of it.
pub open spec fn sorted_by<A>(s: Seq<A>, less: spec_fn(A, A) -> bool) -> bool {
    forall|i: int, j: int| 0 <= i < j < s.len() ==> !less(#[trigger] s[j], #[trigger] s[i])
}

/// A stable sort keeps the elements: it gives a permutation of its input.
pub proof fn lemma_stable_sort_permutes<A>(s: Seq<A>, less: spec_fn(A, A) -> bool)
    ensures
        stable_sort_by(s, less).to_multiset() == s.to_multiset(),
        stable_sort_by(s, less).len() == s.len(),
    decreases s.len(),
{
    broadcast use vstd::seq_lib::to_multiset_insert, vstd::seq_lib::to_multiset_build;

    if s.len() > 0 {
        let t = stable_sort_by(s.drop_last(), less);
        lemma_stable_sort_permutes(s.drop_last(), less);
        let p = first_where(t, sorts_after_by(less, s.last()));
        lemma_first_where_bounds(t, sorts_after_by(less, s.last()));
        assert(s.drop_last().push(s.last()) =~= s);
        assert(t.insert(p, s.last()).to_multiset() == t.to_multiset().insert(s.last()));
    }
}

/// A stable sort by a strict order leaves its result sorted.
pub proof fn lemma_stable_sort_sorted<A>(s: Seq<A>, less: spec_fn(A, A) -> bool)
    requires
        strict_partial_order(less),
    ensures
        sorted_by(stable_sort_by(s, less), less),
    decreases s.len(),
{
    if s.len() > 0 {
        let x = s.last();
        let t = stable_sort_by(s.drop_last(), less);
        lemma_stable_sort_sorted(s.drop_last(), less);
        lemma_stable_sort_permutes(s.drop_last(), less);
        let f = sorts_after_by(less, x);
        let p = first_where(t, f);
        lemma_first_where_bounds(t, f);
        let r = t.insert(p, x);
        assert(r == stable_sort_by(s, less));
        assert forall|i: int, j: int| 0 <= i < j < r.len() implies !less(
            #[trigger] r[j],
            #[trigger] r[i],
        ) by {
            if j < p {
                assert(r[i] == t[i] && r[j] == t[j]);
            } else if j == p {
                assert(r[i] == t[i]);
                assert(!f(t[i]));
            } else if i == p {
                assert(r[j] == t[j - 1]);
                if less(t[j - 1], x) {
                    assert(less(x, t[p]));
                    assert(less(t[j - 1], t[p]));
                    if j - 1 > p {
                        assert(!less(t[j - 1], t[p]));
                    }
                }
            } else if i < p {
                assert(r[i] == t[i] && r[j] == t[j - 1]);
            } else {
                assert(r[i] == t[i - 1] && r[j] == t[j - 1]);
            }
        }
    }
}

} // verus!
