//! Lists of strings kept sorted and free of duplicates, as `sort` followed
//! by `dedup` leaves them.

use vstd::prelude::*;
use crate::order::{
    lemma_text_less_asymmetric, lemma_text_less_irreflexive, lemma_text_less_total,
    lemma_text_less_transitive, text_less, text_lt,
};

verus! {

/// The character sequences of a list of strings.
pub open spec fn views(s: Seq<String>) -> Seq<Seq<char>> {
    s.map_values(|x: String| x@)
}

/// Every element sorts strictly before the ones after it.
pub open spec fn strictly_sorted(s: Seq<Seq<char>>) -> bool {
    forall|i: int, j: int| 0 <= i < j < s.len() ==> text_less(#[trigger] s[i], #[trigger] s[j])
}

/// `r` is what sorting `s` and dropping its duplicates gives.
pub open spec fn is_sorted_set_of(r: Seq<Seq<char>>, s: Seq<Seq<char>>) -> bool {
    strictly_sorted(r) && r.to_set() == s.to_set()
}

pub proof fn lemma_strictly_sorted_no_duplicates(s: Seq<Seq<char>>)
    requires
        strictly_sorted(s),
    ensures
        s.no_duplicates(),
{
    assert forall|i: int, j: int| 0 <= i < s.len() && 0 <= j < s.len() && i != j implies s[i]
        != s[j] by {
        if i < j {
            assert(text_less(s[i], s[j]));
            lemma_text_less_irreflexive(s[i]);
        } else {
            assert(text_less(s[j], s[i]));
            lemma_text_less_irreflexive(s[j]);
        }
    }
}

/// Two sorted, duplicate-free lists with the same elements are equal: the
/// result of sorting and deduplicating is determined by the set of elements.
pub proof fn lemma_sorted_set_unique(a: Seq<Seq<char>>, b: Seq<Seq<char>>)
    requires
        strictly_sorted(a),
        strictly_sorted(b),
        a.to_set() == b.to_set(),
    ensures
        a == b,
    decreases a.len(),
{
    if a.len() == 0 {
        if b.len() > 0 {
            assert(b.to_set().contains(b[0]));
            assert(!a.to_set().contains(b[0]));
        }
        assert(a =~= b);
    } else {
        assert(a.to_set().contains(a[0]));
        assert(b.to_set().contains(a[0]));
        let j = choose|j: int| 0 <= j < b.len() && b[j] == a[0];
        assert(b.to_set().contains(b[0]));
        assert(a.to_set().contains(b[0]));
        let i = choose|i: int| 0 <= i < a.len() && a[i] == b[0];
        if i > 0 && j > 0 {
            assert(text_less(a[0], a[i]));
            assert(text_less(b[0], b[j]));
            lemma_text_less_asymmetric(a[0], b[0]);
        }
        assert(a[0] == b[0]) by {
            if i > 0 && j == 0 {
            }
            if i == 0 {
            }
        }
        lemma_strictly_sorted_no_duplicates(a);
        lemma_strictly_sorted_no_duplicates(b);
        let a1 = a.drop_first();
        let b1 = b.drop_first();
        assert forall|x: Seq<char>| a1.to_set().contains(x) <==> b1.to_set().contains(x) by {
            if a1.to_set().contains(x) {
                let k = choose|k: int| 0 <= k < a1.len() && a1[k] == x;
                assert(a[k + 1] == x);
                assert(a.to_set().contains(x));
                assert(b.to_set().contains(x));
                let m = choose|m: int| 0 <= m < b.len() && b[m] == x;
                assert(m != 0);
                assert(b1[m - 1] == x);
            }
            if b1.to_set().contains(x) {
                let k = choose|k: int| 0 <= k < b1.len() && b1[k] == x;
                assert(b[k + 1] == x);
                assert(b.to_set().contains(x));
                assert(a.to_set().contains(x));
                let m = choose|m: int| 0 <= m < a.len() && a[m] == x;
                assert(m != 0);
                assert(a1[m - 1] == x);
            }
        }
        assert(a1.to_set() =~= b1.to_set());
        lemma_sorted_set_unique(a1, b1);
        assert(a =~= b) by {
            assert forall|k: int| 0 <= k < a.len() implies a[k] == b[k] by {
                if k > 0 {
                    assert(a[k] == a1[k - 1]);
                    assert(b[k] == b1[k - 1]);
                }
            }
        }
    }
}

pub proof fn lemma_to_set_push<A>(s: Seq<A>, x: A)
    ensures
        s.push(x).to_set() == s.to_set().insert(x),
{
    assert forall|y: A| s.push(x).to_set().contains(y) <==> s.to_set().insert(x).contains(y) by {
        if s.push(x).to_set().contains(y) && y != x {
            let k = choose|k: int| 0 <= k < s.push(x).len() && s.push(x)[k] == y;
            assert(s[k] == y);
        }
        if s.to_set().contains(y) {
            let k = choose|k: int| 0 <= k < s.len() && s[k] == y;
            assert(s.push(x)[k] == y);
        }
        if y == x {
            assert(s.push(x)[s.len() as int] == y);
        }
    }
    assert(s.push(x).to_set() =~= s.to_set().insert(x));
}

/// The sorted, duplicate-free list of the elements of `s`.
pub open spec fn sorted_set(s: Seq<Seq<char>>) -> Seq<Seq<char>> {
    choose|r: Seq<Seq<char>>| is_sorted_set_of(r, s)
}

proof fn sorted_insert_exists(r: Seq<Seq<char>>, x: Seq<char>) -> (t: Seq<Seq<char>>)
    requires
        strictly_sorted(r),
    ensures
        strictly_sorted(t),
        t.to_set() == r.to_set().insert(x),
    decreases r.len(),
{
    if r.len() == 0 {
        let t = seq![x];
        assert(t.to_set() =~= r.to_set().insert(x)) by {
            assert(t[0] == x);
        }
        t
    } else if r[0] == x {
        assert(r.to_set() =~= r.to_set().insert(x));
        r
    } else if text_less(x, r[0]) {
        let t = seq![x] + r;
        assert forall|i: int, j: int| 0 <= i < j < t.len() implies text_less(#[trigger] t[i], #[trigger] t[j]) by {
            if i == 0 {
                if j > 1 {
                    assert(text_less(r[0], r[j - 1]));
                    lemma_text_less_transitive(x, r[0], r[j - 1]);
                }
            } else {
                assert(t[i] == r[i - 1] && t[j] == r[j - 1]);
            }
        }
        assert forall|y: Seq<char>| t.to_set().contains(y) <==> r.to_set().insert(x).contains(y) by {
            if t.to_set().contains(y) {
                let k = choose|k: int| 0 <= k < t.len() && t[k] == y;
                if k > 0 {
                    assert(r[k - 1] == y);
                }
            }
            if r.to_set().contains(y) {
                let k = choose|k: int| 0 <= k < r.len() && r[k] == y;
                assert(t[k + 1] == y);
            }
            if y == x {
                assert(t[0] == y);
            }
        }
        assert(t.to_set() =~= r.to_set().insert(x));
        t
    } else {
        lemma_text_less_total(x, r[0]);
        let r1 = r.drop_first();
        assert forall|i: int, j: int| 0 <= i < j < r1.len() implies text_less(#[trigger] r1[i], #[trigger] r1[j]) by {
            assert(r1[i] == r[i + 1] && r1[j] == r[j + 1]);
        }
        let t1 = sorted_insert_exists(r1, x);
        let t = seq![r[0]] + t1;
        assert forall|y: Seq<char>| t1.to_set().contains(y) implies text_less(r[0], y) by {
            assert(r1.to_set().insert(x).contains(y));
            if y != x {
                let k = choose|k: int| 0 <= k < r1.len() && r1[k] == y;
                assert(r[k + 1] == y);
            }
        }
        assert forall|i: int, j: int| 0 <= i < j < t.len() implies text_less(#[trigger] t[i], #[trigger] t[j]) by {
            if i == 0 {
                assert(t[j] == t1[j - 1]);
                assert(t1.to_set().contains(t1[j - 1]));
            } else {
                assert(t[i] == t1[i - 1] && t[j] == t1[j - 1]);
            }
        }
        assert forall|y: Seq<char>| t.to_set().contains(y) <==> r.to_set().insert(x).contains(y) by {
            if t.to_set().contains(y) {
                let k = choose|k: int| 0 <= k < t.len() && t[k] == y;
                if k > 0 {
                    assert(t1[k - 1] == y);
                    assert(t1.to_set().contains(y));
                    if y != x {
                        let m = choose|m: int| 0 <= m < r1.len() && r1[m] == y;
                        assert(r[m + 1] == y);
                    }
                }
            }
            if r.to_set().contains(y) {
                let k = choose|k: int| 0 <= k < r.len() && r[k] == y;
                if k == 0 {
                    assert(t[0] == y);
                } else {
                    assert(r1[k - 1] == y);
                    assert(t1.to_set().contains(y));
                    let m = choose|m: int| 0 <= m < t1.len() && t1[m] == y;
                    assert(t[m + 1] == y);
                }
            }
            if y == x {
                assert(t1.to_set().contains(x));
                let m = choose|m: int| 0 <= m < t1.len() && t1[m] == x;
                assert(t[m + 1] == y);
            }
        }
        assert(t.to_set() =~= r.to_set().insert(x));
        t
    }
}

proof fn sorted_set_exists(s: Seq<Seq<char>>) -> (r: Seq<Seq<char>>)
    ensures
        is_sorted_set_of(r, s),
    decreases s.len(),
{
    if s.len() == 0 {
        let r = Seq::<Seq<char>>::empty();
        assert(r.to_set() =~= s.to_set());
        r
    } else {
        let r0 = sorted_set_exists(s.drop_last());
        let r = sorted_insert_exists(r0, s.last());
        lemma_to_set_push(s.drop_last(), s.last());
        assert(s.drop_last().push(s.last()) =~= s);
        r
    }
}

/// `sorted_set(s)` is sorted, holds the elements of `s`, and is the only list
/// that does both.
pub proof fn lemma_sorted_set(s: Seq<Seq<char>>)
    ensures
        is_sorted_set_of(sorted_set(s), s),
        forall|r: Seq<Seq<char>>| is_sorted_set_of(r, s) ==> r == sorted_set(s),
{
    let w = sorted_set_exists(s);
    assert(is_sorted_set_of(sorted_set(s), s));
    assert forall|r: Seq<Seq<char>>| is_sorted_set_of(r, s) implies r == sorted_set(s) by {
        lemma_sorted_set_unique(r, sorted_set(s));
    }
}

/// Inserts `x` at its place in a sorted, duplicate-free list, unless it is
/// already there; returns whether it was inserted.
pub fn insert_sorted(v: &mut Vec<String>, x: String) -> (inserted: bool)
    requires
        strictly_sorted(views(old(v)@)),
    ensures
        strictly_sorted(views(final(v)@)),
        views(final(v)@).to_set() == views(old(v)@).to_set().insert(x@),
        inserted == !views(old(v)@).contains(x@),
{
    let ghost s = views(v@);
    let mut p: usize = 0;
    while p < v.len() && text_lt(v[p].as_str(), x.as_str())
        invariant
            p <= v.len(),
            s == views(v@),
            forall|k: int| 0 <= k < p ==> text_less(#[trigger] s[k], x@),
        decreases v.len() - p,
    {
        p += 1;
    }
    proof {
        if p < v.len() {
            lemma_text_less_total(s[p as int], x@);
        }
    }
    if p < v.len() && v[p] == x {
        assert(s.to_set().insert(x@) =~= s.to_set());
        assert(s[p as int] == x@);
        return false;
    }
    proof {
        assert forall|k: int| 0 <= k < s.len() implies s[k] != x@ by {
            if k < p {
                lemma_text_less_irreflexive(x@);
            } else {
                assert(k == p || text_less(s[p as int], s[k]));
                assert(text_less(x@, s[p as int]));
                if k > p {
                    lemma_text_less_transitive(x@, s[p as int], s[k]);
                    lemma_text_less_irreflexive(x@);
                }
            }
        }
    }
    v.insert(p, x);
    proof {
        let t = views(v@);
        assert(t =~= s.insert(p as int, x@));
        assert forall|i: int, j: int| 0 <= i < j < t.len() implies text_less(
            #[trigger] t[i],
            #[trigger] t[j],
        ) by {
            if j < p {
            } else if i < p && j == p {
            } else if i < p && j > p {
                assert(t[j] == s[j - 1]);
            } else if i == p && j > p {
                assert(t[j] == s[j - 1]);
                if j - 1 > p {
                    lemma_text_less_transitive(x@, s[p as int], s[j - 1]);
                }
            } else {
                assert(t[i] == s[i - 1]);
                assert(t[j] == s[j - 1]);
            }
        }
        assert forall|y: Seq<char>| t.to_set().contains(y) <==> s.to_set().insert(x@).contains(
            y,
        ) by {
            if t.to_set().contains(y) {
                let k = choose|k: int| 0 <= k < t.len() && t[k] == y;
                if k < p {
                    assert(s[k] == y);
                } else if k > p {
                    assert(s[k - 1] == y);
                }
            }
            if s.to_set().contains(y) {
                let k = choose|k: int| 0 <= k < s.len() && s[k] == y;
                if k < p {
                    assert(t[k] == y);
                } else {
                    assert(t[k + 1] == y);
                }
            }
            if y == x@ {
                assert(t[p as int] == y);
            }
        }
        assert(t.to_set() =~= s.to_set().insert(x@));
    }
    true
}

/// `v` sorted, with duplicates dropped (`sort` then `dedup`).
pub fn sort_dedup(v: &Vec<String>) -> (r: Vec<String>)
    ensures
        is_sorted_set_of(views(r@), views(v@)),
{
    let mut r: Vec<String> = Vec::new();
    let mut i: usize = 0;
    proof {
        assert(views(v@.take(0)) =~= Seq::<Seq<char>>::empty());
        assert(views(r@) =~= Seq::<Seq<char>>::empty());
    }
    while i < v.len()
        invariant
            i <= v.len(),
            is_sorted_set_of(views(r@), views(v@.take(i as int))),
        decreases v.len() - i,
    {
        let x = v[i].clone();
        insert_sorted(&mut r, x);
        proof {
            assert(views(v@.take(i + 1)) =~= views(v@.take(i as int)).push(v@[i as int]@));
            lemma_to_set_push(views(v@.take(i as int)), v@[i as int]@);
        }
        i += 1;
    }
    assert(v@.take(v.len() as int) =~= v@);
    r
}


/// The position of the first occurrence of `x` in `s`, or `s.len()` if none.
pub open spec fn first_index<A>(s: Seq<A>, x: A) -> int
    decreases s.len(),
{
    if s.len() == 0 {
        0
    } else if s[0] == x {
        0
    } else {
        1 + first_index(s.drop_first(), x)
    }
}

pub proof fn lemma_first_index<A>(s: Seq<A>, x: A)
    ensures
        0 <= first_index(s, x) <= s.len(),
        forall|k: int| 0 <= k < first_index(s, x) ==> s[k] != x,
        first_index(s, x) < s.len() ==> s[first_index(s, x)] == x,
        first_index(s, x) < s.len() <==> s.contains(x),
    decreases s.len(),
{
    if s.len() > 0 && s[0] != x {
        lemma_first_index(s.drop_first(), x);
        assert forall|k: int| 0 <= k < first_index(s, x) implies s[k] != x by {
            if k > 0 {
                assert(s[k] == s.drop_first()[k - 1]);
            }
        }
        if s.contains(x) {
            let k = choose|k: int| 0 <= k < s.len() && s[k] == x;
            assert(s.drop_first()[k - 1] == x);
        }
    }
}

/// An index `i` before which `x` does not occur, and at which it occurs
/// unless `i` is the end, is the first index of `x`.
pub proof fn lemma_first_index_at<A>(s: Seq<A>, x: A, i: int)
    requires
        0 <= i <= s.len(),
        forall|k: int| 0 <= k < i ==> s[k] != x,
        i < s.len() ==> s[i] == x,
    ensures
        first_index(s, x) == i,
{
    lemma_first_index(s, x);
    let f = first_index(s, x);
    if f < i {
        assert(s[f] == x);
    }
    if i < f {
        assert(s[i] != x);
    }
}

/// The position of the first element of `s` that satisfies `p`, or `s.len()`.
pub open spec fn first_where<A>(s: Seq<A>, p: spec_fn(A) -> bool) -> int
    decreases s.len(),
{
    if s.len() == 0 {
        0
    } else if p(s[0]) {
        0
    } else {
        1 + first_where(s.drop_first(), p)
    }
}

pub proof fn lemma_first_where_bounds<A>(s: Seq<A>, p: spec_fn(A) -> bool)
    ensures
        0 <= first_where(s, p) <= s.len(),
        forall|k: int| 0 <= k < first_where(s, p) ==> !p(#[trigger] s[k]),
        first_where(s, p) < s.len() ==> p(s[first_where(s, p)]),
    decreases s.len(),
{
    if s.len() > 0 && !p(s[0]) {
        lemma_first_where_bounds(s.drop_first(), p);
        assert forall|k: int| 0 <= k < first_where(s, p) implies !p(#[trigger] s[k]) by {
            if k > 0 {
                assert(s[k] == s.drop_first()[k - 1]);
            }
        }
    }
}

/// An index before which no element satisfies `p`, and at which one does
/// unless it is the end, is `first_where`.
pub proof fn lemma_first_where_at<A>(s: Seq<A>, p: spec_fn(A) -> bool, i: int)
    requires
        0 <= i <= s.len(),
        forall|k: int| 0 <= k < i ==> !p(#[trigger] s[k]),
        i < s.len() ==> p(s[i]),
    ensures
        first_where(s, p) == i,
    decreases i,
{
    if i > 0 {
        assert forall|k: int| 0 <= k < i - 1 implies !p(#[trigger] s.drop_first()[k]) by {
            assert(s.drop_first()[k] == s[k + 1]);
        }
        assert(!p(s[0]));
        lemma_first_where_at(s.drop_first(), p, i - 1);
    }
}

/// The position of the first string of `v` equal to `x`, or `v.len()`.
pub fn position_of(v: &Vec<String>, x: &str) -> (i: usize)
    ensures
        i == first_index(views(v@), x@),
{
    let mut i: usize = 0;
    while i < v.len()
        invariant
            i <= v.len(),
            forall|k: int| 0 <= k < i ==> views(v@)[k] != x@,
        decreases v.len() - i,
    {
        if crate::order::text_eq(v[i].as_str(), x) {
            proof {
                lemma_first_index_at(views(v@), x@, i as int);
            }
            return i;
        }
        i += 1;
    }
    proof {
        lemma_first_index_at(views(v@), x@, i as int);
    }
    i
}

/// Whether some string of `v` equals `x`.
pub fn contains_text(v: &Vec<String>, x: &str) -> (r: bool)
    ensures
        r == views(v@).contains(x@),
{
    let i = position_of(v, x);
    proof {
        lemma_first_index(views(v@), x@);
    }
    i < v.len()
}

/// What a filter keeps are elements of the sequence that pass it, and every
/// element that passes is kept.
pub proof fn lemma_filter_elements<A>(s: Seq<A>, p: spec_fn(A) -> bool)
    ensures
        forall|i: int| 0 <= i < s.filter(p).len() ==> s.contains(#[trigger] s.filter(p)[i]) && p(s.filter(p)[i]),
        forall|i: int| 0 <= i < s.len() && p(#[trigger] s[i]) ==> s.filter(p).contains(s[i]),
        s.filter(p).len() <= s.len(),
    decreases s.len(),
{
    reveal(Seq::filter);
    #[allow(deprecated)]
    s.filter_lemma(p);
    if s.len() > 0 {
        lemma_filter_elements(s.drop_last(), p);
        let f = s.filter(p);
        let g = s.drop_last().filter(p);
        assert forall|i: int| 0 <= i < f.len() implies s.contains(#[trigger] f[i]) by {
            if i < g.len() {
                assert(f[i] == g[i]);
                let k = choose|k: int| 0 <= k < s.drop_last().len() && s.drop_last()[k] == g[i];
                assert(s[k] == f[i]);
            } else {
                assert(f[i] == s.last());
                assert(s[s.len() - 1] == f[i]);
            }
        }
    }
}

} // verus!
