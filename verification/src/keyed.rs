//! Lists of keyed entries cleaned up so that each key appears once, in key
//! order, holding the first usable entry the input had for that key: what a
//! clean-up pass, a filter, a stable sort by key and a `dedup_by` on the key
//! leave of a list.

use vstd::prelude::*;

verus! {

/// `less` is a strict total order.
pub open spec fn strict_order<K>(less: spec_fn(K, K) -> bool) -> bool {
    &&& forall|a: K| !(#[trigger] less(a, a))
    &&& forall|a: K, b: K, c: K| #[trigger] less(a, b) && #[trigger] less(b, c) ==> less(a, c)
    &&& forall|a: K, b: K| a == b || #[trigger] less(a, b) || #[trigger] less(b, a)
}

/// The key that entry `e` has once cleaned.
pub open spec fn clean_key<V, K>(e: V, clean: spec_fn(V) -> V, key: spec_fn(V) -> K) -> K {
    key(clean(e))
}

/// `es[j]` is the first kept entry of `es` whose cleaned key is `c`.
pub open spec fn first_kept<V, K>(
    es: Seq<V>,
    kept: spec_fn(V) -> bool,
    clean: spec_fn(V) -> V,
    key: spec_fn(V) -> K,
    c: K,
    j: int,
) -> bool {
    &&& 0 <= j < es.len()
    &&& kept(es[j])
    &&& clean_key(es[j], clean, key) == c
    &&& forall|m: int| 0 <= m < j ==> !(kept(es[m]) && clean_key(#[trigger] es[m], clean, key) == c)
}

/// `x` is the cleaned form of the first kept entry of `es` with its key.
pub open spec fn has_first_kept<V, K>(
    es: Seq<V>,
    kept: spec_fn(V) -> bool,
    clean: spec_fn(V) -> V,
    key: spec_fn(V) -> K,
    x: V,
) -> bool {
    exists|j: int| #[trigger] first_kept(es, kept, clean, key, key(x), j) && x == clean(es[j])
}

/// `r` holds, in strictly increasing key order, for each key that a kept
/// entry of `es` has, the cleaned form of the first kept entry with that key.
pub open spec fn first_per_key<V, K>(
    r: Seq<V>,
    es: Seq<V>,
    kept: spec_fn(V) -> bool,
    clean: spec_fn(V) -> V,
    key: spec_fn(V) -> K,
    less: spec_fn(K, K) -> bool,
) -> bool {
    &&& forall|i: int, j: int| 0 <= i < j < r.len() ==> less(key(#[trigger] r[i]), key(#[trigger] r[j]))
    &&& forall|k: int| 0 <= k < r.len() ==> #[trigger] has_first_kept(es, kept, clean, key, r[k])
    &&& forall|j: int| 0 <= j < es.len() && kept(#[trigger] es[j]) ==> exists|k: int| 0 <= k < r.len() && key(#[trigger] r[k]) == clean_key(es[j], clean, key)
}

pub proof fn lemma_first_per_key_empty<V, K>(
    kept: spec_fn(V) -> bool,
    clean: spec_fn(V) -> V,
    key: spec_fn(V) -> K,
    less: spec_fn(K, K) -> bool,
)
    ensures
        first_per_key(Seq::<V>::empty(), Seq::<V>::empty(), kept, clean, key, less),
{
}

/// Where a key `c` belongs in `r`: every key before `p` is smaller, the key at
/// `p`, if any, is not. Then `c` occurs in `r` exactly when it is the key at `p`.
pub proof fn lemma_key_position<V, K>(
    r: Seq<V>,
    key: spec_fn(V) -> K,
    less: spec_fn(K, K) -> bool,
    c: K,
    p: int,
)
    requires
        strict_order(less),
        forall|i: int, j: int| 0 <= i < j < r.len() ==> less(key(#[trigger] r[i]), key(#[trigger] r[j])),
        0 <= p <= r.len(),
        forall|k: int| 0 <= k < p ==> less(key(#[trigger] r[k]), c),
        p < r.len() ==> !less(key(r[p]), c),
    ensures
        (exists|k: int| 0 <= k < r.len() && key(#[trigger] r[k]) == c) <==> (p < r.len() && key(r[p]) == c),
        p < r.len() && key(r[p]) != c ==> forall|k: int| p <= k < r.len() ==> less(c, key(#[trigger] r[k])),
{
    if p < r.len() && key(r[p]) != c {
        assert(less(c, key(r[p])));
        assert forall|k: int| p <= k < r.len() implies less(c, key(#[trigger] r[k])) by {
            if k > p {
                assert(less(key(r[p]), key(r[k])));
            }
        }
    }
    if exists|k: int| 0 <= k < r.len() && key(#[trigger] r[k]) == c {
        let k = choose|k: int| 0 <= k < r.len() && key(#[trigger] r[k]) == c;
        if k < p {
            assert(less(key(r[k]), c));
        } else if k > p {
            assert(less(key(r[p]), key(r[k])));
        }
    }
}

/// One more entry `e`: it is added at its key's place `p` when it is kept and
/// its key is new, and changes nothing otherwise.
pub proof fn lemma_first_per_key_step<V, K>(
    r: Seq<V>,
    es: Seq<V>,
    e: V,
    kept: spec_fn(V) -> bool,
    clean: spec_fn(V) -> V,
    key: spec_fn(V) -> K,
    less: spec_fn(K, K) -> bool,
    p: int,
)
    requires
        strict_order(less),
        first_per_key(r, es, kept, clean, key, less),
        0 <= p <= r.len(),
        forall|k: int| 0 <= k < p ==> less(key(#[trigger] r[k]), clean_key(e, clean, key)),
        p < r.len() ==> !less(key(r[p]), clean_key(e, clean, key)),
    ensures
        ({
            let c = clean_key(e, clean, key);
            let present = p < r.len() && key(r[p]) == c;
            first_per_key(
                if kept(e) && !present { r.insert(p, clean(e)) } else { r },
                es.push(e),
                kept,
                clean,
                key,
                less,
            )
        }),
{
    let c = clean_key(e, clean, key);
    let present = p < r.len() && key(r[p]) == c;
    let es2 = es.push(e);
    lemma_key_position(r, key, less, c, p);
    assert forall|k: K, j: int| #[trigger] first_kept(es, kept, clean, key, k, j) implies first_kept(es2, kept, clean, key, k, j) by {
        assert forall|m: int| 0 <= m < j implies !(kept(es2[m]) && clean_key(#[trigger] es2[m], clean, key) == k) by {
            assert(es2[m] == es[m]);
        }
        assert(es2[j] == es[j]);
    }
    if kept(e) && !present {
        let r2 = r.insert(p, clean(e));
        assert forall|i: int, j: int| 0 <= i < j < r2.len() implies less(key(#[trigger] r2[i]), key(#[trigger] r2[j])) by {
            if j < p {
            } else if i < p && j == p {
            } else if i < p && j > p {
                assert(r2[j] == r[j - 1]);
                assert(less(c, key(r[j - 1])));
            } else if i == p {
                assert(r2[j] == r[j - 1]);
            } else {
                assert(r2[i] == r[i - 1]);
                assert(r2[j] == r[j - 1]);
            }
        }
        assert forall|k: int| 0 <= k < r2.len() implies has_first_kept(es2, kept, clean, key, r2[k]) by {
            if k == p {
                assert forall|m: int| 0 <= m < es.len() implies !(kept(es2[m]) && clean_key(#[trigger] es2[m], clean, key) == c) by {
                    assert(es2[m] == es[m]);
                    if kept(es[m]) && clean_key(es[m], clean, key) == c {
                        let kk = choose|kk: int| 0 <= kk < r.len() && key(#[trigger] r[kk]) == clean_key(es[m], clean, key);
                    }
                }
                assert(first_kept(es2, kept, clean, key, c, es.len() as int));
                assert(es2[es.len() as int] == e);
                assert(r2[k] == clean(e));
                assert(first_kept(es2, kept, clean, key, key(r2[k]), es.len() as int));
            } else {
                let kr = if k < p { k } else { k - 1 };
                assert(r2[k] == r[kr]);
                assert(has_first_kept(es, kept, clean, key, r[kr]));
                let j = choose|j: int| first_kept(es, kept, clean, key, key(r[kr]), j) && r[kr] == clean(es[j]);
                assert(first_kept(es2, kept, clean, key, key(r2[k]), j));
                assert(es2[j] == es[j]);
            }
        }
        assert forall|j: int| 0 <= j < es2.len() && kept(#[trigger] es2[j]) implies exists|k: int| 0 <= k < r2.len() && key(#[trigger] r2[k]) == clean_key(es2[j], clean, key) by {
            if j == es.len() {
                assert(r2[p] == clean(e));
            } else {
                assert(es2[j] == es[j]);
                let k = choose|k: int| 0 <= k < r.len() && key(#[trigger] r[k]) == clean_key(es[j], clean, key);
                if k < p {
                    assert(r2[k] == r[k]);
                } else {
                    assert(r2[k + 1] == r[k]);
                }
            }
        }
        assert(first_per_key(r2, es2, kept, clean, key, less));
    } else {
        assert forall|k: int| 0 <= k < r.len() implies has_first_kept(es2, kept, clean, key, r[k]) by {
            assert(has_first_kept(es, kept, clean, key, r[k]));
            let j = choose|j: int| first_kept(es, kept, clean, key, key(r[k]), j) && r[k] == clean(es[j]);
            assert(first_kept(es2, kept, clean, key, key(r[k]), j));
            assert(es2[j] == es[j]);
        }
        assert forall|j: int| 0 <= j < es2.len() && kept(#[trigger] es2[j]) implies exists|k: int| 0 <= k < r.len() && key(#[trigger] r[k]) == clean_key(es2[j], clean, key) by {
            if j == es.len() {
                assert(es2[j] == e);
                assert(key(r[p]) == c);
            } else {
                assert(es2[j] == es[j]);
            }
        }
        assert(first_per_key(r, es2, kept, clean, key, less));
    }
}

/// In a clean-up `r` of `es`, the first kept entry of `es` with a given
/// cleaned key stands, cleaned, at the one place `k` of `r` with that key.
pub proof fn lemma_first_per_key_lookup<V, K>(
    r: Seq<V>,
    es: Seq<V>,
    kept: spec_fn(V) -> bool,
    clean: spec_fn(V) -> V,
    key: spec_fn(V) -> K,
    less: spec_fn(K, K) -> bool,
    j: int,
) -> (k: int)
    requires
        strict_order(less),
        first_per_key(r, es, kept, clean, key, less),
        first_kept(es, kept, clean, key, clean_key(es[j], clean, key), j),
    ensures
        0 <= k < r.len(),
        r[k] == clean(es[j]),
        key(r[k]) == clean_key(es[j], clean, key),
        forall|m: int| 0 <= m < r.len() && m != k ==> key(#[trigger] r[m]) != key(r[k]),
{
    let c = clean_key(es[j], clean, key);
    assert(kept(es[j]));
    let k = choose|k: int| 0 <= k < r.len() && key(#[trigger] r[k]) == clean_key(es[j], clean, key);
    assert(has_first_kept(es, kept, clean, key, r[k]));
    let j2 = choose|j2: int| #[trigger] first_kept(es, kept, clean, key, key(r[k]), j2) && r[k] == clean(es[j2]);
    if j2 < j {
        assert(!(kept(es[j2]) && clean_key(es[j2], clean, key) == c));
    }
    if j < j2 {
        assert(!(kept(es[j]) && clean_key(es[j], clean, key) == c));
    }
    assert forall|m: int| 0 <= m < r.len() && m != k implies key(#[trigger] r[m]) != key(r[k]) by {
        if m < k {
            assert(less(key(r[m]), key(r[k])));
        } else {
            assert(less(key(r[k]), key(r[m])));
        }
    }
    k
}

/// Two sequences, each strictly increasing, with the same elements, are
/// equal.
pub proof fn lemma_increasing_unique<K>(a: Seq<K>, b: Seq<K>, less: spec_fn(K, K) -> bool)
    requires
        strict_order(less),
        forall|i: int, j: int| 0 <= i < j < a.len() ==> less(#[trigger] a[i], #[trigger] a[j]),
        forall|i: int, j: int| 0 <= i < j < b.len() ==> less(#[trigger] b[i], #[trigger] b[j]),
        forall|x: K| a.contains(x) <==> b.contains(x),
    ensures
        a == b,
    decreases a.len(),
{
    if a.len() == 0 {
        if b.len() > 0 {
            assert(b.contains(b[0]));
        }
        assert(a =~= b);
    } else {
        assert(a.contains(a[0]));
        let j = choose|j: int| 0 <= j < b.len() && b[j] == a[0];
        assert(b.contains(b[0]));
        let i = choose|i: int| 0 <= i < a.len() && a[i] == b[0];
        if i > 0 && j > 0 {
            assert(less(a[0], a[i]));
            assert(less(b[0], b[j]));
        }
        assert(a[0] == b[0]);
        let a1 = a.drop_first();
        let b1 = b.drop_first();
        assert forall|x: K| a1.contains(x) <==> b1.contains(x) by {
            if a1.contains(x) {
                let k = choose|k: int| 0 <= k < a1.len() && a1[k] == x;
                assert(a[k + 1] == x);
                assert(a.contains(x));
                let m = choose|m: int| 0 <= m < b.len() && b[m] == x;
                if m == 0 {
                    assert(less(a[0], a[k + 1]));
                }
                assert(b1[m - 1] == x);
            }
            if b1.contains(x) {
                let k = choose|k: int| 0 <= k < b1.len() && b1[k] == x;
                assert(b[k + 1] == x);
                assert(b.contains(x));
                let m = choose|m: int| 0 <= m < a.len() && a[m] == x;
                if m == 0 {
                    assert(less(b[0], b[k + 1]));
                }
                assert(a1[m - 1] == x);
            }
        }
        assert forall|p: int, q: int| 0 <= p < q < a1.len() implies less(#[trigger] a1[p], #[trigger] a1[q]) by {
            assert(a1[p] == a[p + 1] && a1[q] == a[q + 1]);
        }
        assert forall|p: int, q: int| 0 <= p < q < b1.len() implies less(#[trigger] b1[p], #[trigger] b1[q]) by {
            assert(b1[p] == b[p + 1] && b1[q] == b[q + 1]);
        }
        lemma_increasing_unique(a1, b1, less);
        assert forall|k: int| 0 <= k < a.len() implies a[k] == b[k] by {
            if k > 0 {
                assert(a[k] == a1[k - 1]);
                assert(b[k] == b1[k - 1]);
            }
        }
        assert(a =~= b);
    }
}

/// The clean-up of a list of keyed entries is determined by the list.
pub proof fn lemma_first_per_key_unique<V, K>(
    r1: Seq<V>,
    r2: Seq<V>,
    es: Seq<V>,
    kept: spec_fn(V) -> bool,
    clean: spec_fn(V) -> V,
    key: spec_fn(V) -> K,
    less: spec_fn(K, K) -> bool,
)
    requires
        strict_order(less),
        first_per_key(r1, es, kept, clean, key, less),
        first_per_key(r2, es, kept, clean, key, less),
    ensures
        r1 == r2,
{
    let k1 = r1.map_values(|v: V| key(v));
    let k2 = r2.map_values(|v: V| key(v));
    assert forall|x: K| k1.contains(x) implies k2.contains(x) by {
        let i = choose|i: int| 0 <= i < k1.len() && k1[i] == x;
        assert(has_first_kept(es, kept, clean, key, r1[i]));
        let j = choose|j: int| #[trigger] first_kept(es, kept, clean, key, key(r1[i]), j) && r1[i] == clean(es[j]);
        assert(kept(es[j]));
        let k = choose|k: int| 0 <= k < r2.len() && key(#[trigger] r2[k]) == clean_key(es[j], clean, key);
        assert(k2[k] == x);
    }
    assert forall|x: K| k2.contains(x) implies k1.contains(x) by {
        let i = choose|i: int| 0 <= i < k2.len() && k2[i] == x;
        assert(has_first_kept(es, kept, clean, key, r2[i]));
        let j = choose|j: int| #[trigger] first_kept(es, kept, clean, key, key(r2[i]), j) && r2[i] == clean(es[j]);
        assert(kept(es[j]));
        let k = choose|k: int| 0 <= k < r1.len() && key(#[trigger] r1[k]) == clean_key(es[j], clean, key);
        assert(k1[k] == x);
    }
    assert forall|p: int, q: int| 0 <= p < q < k1.len() implies less(#[trigger] k1[p], #[trigger] k1[q]) by {
        assert(less(key(r1[p]), key(r1[q])));
    }
    assert forall|p: int, q: int| 0 <= p < q < k2.len() implies less(#[trigger] k2[p], #[trigger] k2[q]) by {
        assert(less(key(r2[p]), key(r2[q])));
    }
    lemma_increasing_unique(k1, k2, less);
    assert forall|i: int| 0 <= i < r1.len() implies r1[i] == r2[i] by {
        assert(k1[i] == k2[i]);
        assert(has_first_kept(es, kept, clean, key, r1[i]));
        let j1 = choose|j: int| #[trigger] first_kept(es, kept, clean, key, key(r1[i]), j) && r1[i] == clean(es[j]);
        assert(has_first_kept(es, kept, clean, key, r2[i]));
        let j2 = choose|j: int| #[trigger] first_kept(es, kept, clean, key, key(r2[i]), j) && r2[i] == clean(es[j]);
        if j1 < j2 {
            assert(!(kept(es[j1]) && clean_key(es[j1], clean, key) == key(r2[i])));
        }
        if j2 < j1 {
            assert(!(kept(es[j2]) && clean_key(es[j2], clean, key) == key(r1[i])));
        }
    }
    assert(r1 =~= r2);
}

/// A list in strictly increasing key order whose entries clean-up keeps as
/// they are is its own clean-up.
pub proof fn lemma_first_per_key_of_itself<V, K>(
    r: Seq<V>,
    kept: spec_fn(V) -> bool,
    clean: spec_fn(V) -> V,
    key: spec_fn(V) -> K,
    less: spec_fn(K, K) -> bool,
)
    requires
        strict_order(less),
        forall|i: int, j: int| 0 <= i < j < r.len() ==> less(key(#[trigger] r[i]), key(#[trigger] r[j])),
        forall|k: int| 0 <= k < r.len() ==> kept(#[trigger] r[k]) && clean(r[k]) == r[k],
    ensures
        first_per_key(r, r, kept, clean, key, less),
{
    assert forall|k: int| 0 <= k < r.len() implies #[trigger] has_first_kept(r, kept, clean, key, r[k]) by {
        assert forall|m: int| 0 <= m < k implies !(kept(r[m]) && clean_key(#[trigger] r[m], clean, key) == key(r[k])) by {
            assert(less(key(r[m]), key(r[k])));
        }
        assert(first_kept(r, kept, clean, key, key(r[k]), k));
    }
    assert forall|j: int| 0 <= j < r.len() && kept(#[trigger] r[j]) implies exists|k: int| 0 <= k < r.len() && key(#[trigger] r[k]) == clean_key(r[j], clean, key) by {
        assert(key(r[j]) == clean_key(r[j], clean, key));
    }
}

} // verus!
