//! The cache of object lists already fetched, by cluster context, resource
//! kind and namespace, that forgets the least recently used list first.

use vstd::prelude::*;
use crate::favorite::{optional_eq, optional_view};
use crate::objects::{object_views, ObjectSummary, ObjectView};
use crate::resource::{ResourceKind, ResourceView};

verus! {

/// Which object list a cache entry holds.
#[derive(Debug, Clone)]
pub struct ObjectCacheKey {
    pub context: String,
    pub group: String,
    pub version: String,
    pub kind: String,
    pub plural: String,
    pub namespace: Option<String>,
}

pub struct CacheKeyView {
    pub context: Seq<char>,
    pub group: Seq<char>,
    pub version: Seq<char>,
    pub kind: Seq<char>,
    pub plural: Seq<char>,
    pub namespace: Option<Seq<char>>,
}

impl View for ObjectCacheKey {
    type V = CacheKeyView;

    open spec fn view(&self) -> CacheKeyView {
        CacheKeyView {
            context: self.context@,
            group: self.group@,
            version: self.version@,
            kind: self.kind@,
            plural: self.plural@,
            namespace: optional_view(self.namespace),
        }
    }
}

/// The key of the list of `resource` objects in `context`, in `namespace`
/// for namespaced kinds.
pub open spec fn cache_key_of(
    context: Seq<char>,
    resource: ResourceView,
    namespace: Option<Seq<char>>,
) -> CacheKeyView {
    CacheKeyView {
        context,
        group: resource.group,
        version: resource.version,
        kind: resource.kind,
        plural: resource.plural,
        namespace,
    }
}

/// The key of the list of `resource` objects in `context` and `namespace`.
pub fn object_cache_key(context: &str, resource: &ResourceKind, namespace: Option<String>) -> (r: ObjectCacheKey)
    ensures
        r@ == cache_key_of(context@, resource@, optional_view(namespace)),
{
    ObjectCacheKey {
        context: context.to_owned(),
        group: resource.group.clone(),
        version: resource.version.clone(),
        kind: resource.kind.clone(),
        plural: resource.plural.clone(),
        namespace,
    }
}

impl ObjectCacheKey {
    /// Whether two keys name the same list.
    pub fn same_as(&self, other: &ObjectCacheKey) -> (r: bool)
        ensures
            r == (self@ == other@),
    {
        self.context == other.context && self.group == other.group && self.version
            == other.version && self.kind == other.kind && self.plural == other.plural
            && optional_eq(&self.namespace, &other.namespace)
    }
}

/// A copy of an object list.
pub fn copy_objects(objects: &Vec<ObjectSummary>) -> (r: Vec<ObjectSummary>)
    ensures
        object_views(r@) == object_views(objects@),
{
    let mut r: Vec<ObjectSummary> = Vec::new();
    let mut i: usize = 0;
    while i < objects.len()
        invariant
            i <= objects.len(),
            object_views(r@) == object_views(objects@).take(i as int),
        decreases objects.len() - i,
    {
        let o = objects[i].copy();
        let ghost before = object_views(r@);
        r.push(o);
        assert(object_views(objects@).take(i + 1) =~= object_views(objects@).take(i as int).push(o@));
        assert(object_views(r@) =~= before.push(o@));
        i += 1;
    }
    assert(object_views(objects@).take(objects.len() as int) =~= object_views(objects@));
    r
}

/// Cached object lists, the least recently used first.
pub struct ObjectCache {
    limit: usize,
    entries: Vec<(ObjectCacheKey, Vec<ObjectSummary>)>,
}

pub struct CacheView {
    pub limit: nat,
    pub entries: Seq<(CacheKeyView, Seq<ObjectView>)>,
}

pub open spec fn entry_views(es: Seq<(ObjectCacheKey, Vec<ObjectSummary>)>) -> Seq<(CacheKeyView, Seq<ObjectView>)> {
    es.map_values(|e: (ObjectCacheKey, Vec<ObjectSummary>)| (e.0@, object_views(e.1@)))
}

impl View for ObjectCache {
    type V = CacheView;

    closed spec fn view(&self) -> CacheView {
        CacheView { limit: self.limit as nat, entries: entry_views(self.entries@) }
    }
}

/// No key occurs twice, and no more lists are kept than the limit.
pub open spec fn cache_wf(c: CacheView) -> bool {
    &&& c.entries.len() <= c.limit
    &&& forall|i: int, j: int|
        0 <= i < j < c.entries.len() ==> (#[trigger] c.entries[i]).0 != (#[trigger] c.entries[j]).0
}

impl ObjectCache {
    /// Every cache is well formed.
    #[verifier::type_invariant]
    spec fn well_formed(self) -> bool {
        cache_wf(self@)
    }
}

/// Where the list with key `k` is, or the number of lists.
pub open spec fn key_position(es: Seq<(CacheKeyView, Seq<ObjectView>)>, k: CacheKeyView) -> int
    decreases es.len(),
{
    if es.len() == 0 {
        0
    } else if es[0].0 == k {
        0
    } else {
        1 + key_position(es.drop_first(), k)
    }
}

pub proof fn lemma_key_position(es: Seq<(CacheKeyView, Seq<ObjectView>)>, k: CacheKeyView)
    ensures
        0 <= key_position(es, k) <= es.len(),
        forall|m: int| 0 <= m < key_position(es, k) ==> (#[trigger] es[m]).0 != k,
        key_position(es, k) < es.len() ==> es[key_position(es, k)].0 == k,
    decreases es.len(),
{
    if es.len() > 0 && es[0].0 != k {
        lemma_key_position(es.drop_first(), k);
        assert forall|m: int| 0 <= m < key_position(es, k) implies (#[trigger] es[m]).0 != k by {
            if m > 0 {
                assert(es[m] == es.drop_first()[m - 1]);
            }
        }
    }
}

proof fn lemma_key_position_at(es: Seq<(CacheKeyView, Seq<ObjectView>)>, k: CacheKeyView, i: int)
    requires
        0 <= i <= es.len(),
        forall|m: int| 0 <= m < i ==> (#[trigger] es[m]).0 != k,
        i < es.len() ==> es[i].0 == k,
    ensures
        key_position(es, k) == i,
{
    lemma_key_position(es, k);
    let p = key_position(es, k);
    if p < i {
        assert(es[p].0 == k);
    }
    if i < p {
        assert(es[i].0 != k);
    }
}

/// The list cached under `k`, if any.
pub open spec fn cache_lookup(c: CacheView, k: CacheKeyView) -> Option<Seq<ObjectView>> {
    let i = key_position(c.entries, k);
    if i < c.entries.len() {
        Some(c.entries[i].1)
    } else {
        None
    }
}

/// The cache after a look-up of `k`: a list found becomes the most recently
/// used.
pub open spec fn cache_touched(c: CacheView, k: CacheKeyView) -> CacheView {
    let i = key_position(c.entries, k);
    if i < c.entries.len() {
        CacheView { limit: c.limit, entries: c.entries.remove(i).push(c.entries[i]) }
    } else {
        c
    }
}

/// The cache after storing `objects` under `k`: the list replaces any list
/// under `k` as the most recently used, and the least recently used lists
/// go while there are more than the limit.
pub open spec fn cache_stored(c: CacheView, k: CacheKeyView, objects: Seq<ObjectView>) -> CacheView {
    let i = key_position(c.entries, k);
    let rest = if i < c.entries.len() {
        c.entries.remove(i)
    } else {
        c.entries
    };
    let e = rest.push((k, objects));
    CacheView {
        limit: c.limit,
        entries: if e.len() > c.limit {
            e.skip(e.len() - c.limit)
        } else {
            e
        },
    }
}

impl ObjectCache {
    /// An empty cache that keeps at most `limit` lists.
    pub fn new(limit: usize) -> (r: ObjectCache)
        ensures
            r@.limit == limit,
            r@.entries.len() == 0,
            cache_wf(r@),
    {
        let r = ObjectCache { limit, entries: Vec::new() };
        assert(r@.entries =~= Seq::<(CacheKeyView, Seq<ObjectView>)>::empty());
        r
    }

    /// How many lists the cache keeps at most.
    pub fn limit(&self) -> (r: usize)
        ensures
            r == self@.limit,
    {
        self.limit
    }

    /// How many lists the cache holds.
    pub fn len(&self) -> (r: usize)
        ensures
            r == self@.entries.len(),
    {
        self.entries.len()
    }

    fn position(&self, key: &ObjectCacheKey) -> (i: usize)
        ensures
            i == key_position(self@.entries, key@),
    {
        let ghost es = self@.entries;
        let mut i: usize = 0;
        while i < self.entries.len()
            invariant
                i <= self.entries.len(),
                es == self@.entries,
                forall|m: int| 0 <= m < i ==> (#[trigger] es[m]).0 != key@,
            decreases self.entries.len() - i,
        {
            if self.entries[i].0.same_as(key) {
                proof {
                    lemma_key_position_at(es, key@, i as int);
                }
                return i;
            }
            assert(es[i as int].0 == self.entries@[i as int].0@);
            i += 1;
        }
        proof {
            lemma_key_position_at(es, key@, i as int);
        }
        i
    }

    /// The list cached under `key`, which becomes the most recently used.
    pub fn cached_objects(&mut self, key: &ObjectCacheKey) -> (r: Option<Vec<ObjectSummary>>)
        ensures
            cache_wf(final(self)@),
            final(self)@ == cache_touched(old(self)@, key@),
            match r {
                Some(v) => cache_lookup(old(self)@, key@) == Some(object_views(v@)),
                None => cache_lookup(old(self)@, key@) is None,
            },
    {
        proof {
            use_type_invariant(&*self);
        }
        let ghost c = self@;
        let i = self.position(key);
        if i < self.entries.len() {
            let mut entries: Vec<(ObjectCacheKey, Vec<ObjectSummary>)> = Vec::new();
            std::mem::swap(&mut entries, &mut self.entries);
            assert(entry_views(entries@) == c.entries);
            let entry = entries.remove(i);
            let found = copy_objects(&entry.1);
            entries.push(entry);
            proof {
                assert(entry_views(entries@) =~= c.entries.remove(i as int).push(c.entries[i as int]));
                let es = entry_views(entries@);
                assert forall|a: int, b: int| 0 <= a < b < es.len() implies (#[trigger] es[a]).0
                    != (#[trigger] es[b]).0 by {
                    if b == es.len() - 1 {
                        if a < i {
                            assert(es[a] == c.entries[a]);
                        } else {
                            assert(es[a] == c.entries[a + 1]);
                        }
                    } else {
                        let a0 = if a < i { a } else { a + 1 };
                        let b0 = if b < i { b } else { b + 1 };
                        assert(es[a] == c.entries[a0]);
                        assert(es[b] == c.entries[b0]);
                    }
                }
            }
            self.entries = entries;
            Some(found)
        } else {
            None
        }
    }

    /// Stores `objects` under `key` as the most recently used list, and
    /// forgets the least recently used lists beyond the limit.
    pub fn cache_objects(&mut self, key: ObjectCacheKey, objects: Vec<ObjectSummary>)
        ensures
            cache_wf(final(self)@),
            final(self)@ == cache_stored(old(self)@, key@, object_views(objects@)),
    {
        proof {
            use_type_invariant(&*self);
        }
        let ghost c = self@;
        let ghost k = key@;
        let ghost o = object_views(objects@);
        let limit = self.limit;
        let i = self.position(&key);
        let mut entries: Vec<(ObjectCacheKey, Vec<ObjectSummary>)> = Vec::new();
        std::mem::swap(&mut entries, &mut self.entries);
        assert(entry_views(entries@) == c.entries);
        if i < entries.len() {
            entries.remove(i);
        }
        let ghost rest = entry_views(entries@);
        proof {
            if i < c.entries.len() {
                assert(rest =~= c.entries.remove(i as int));
            } else {
                assert(rest =~= c.entries);
            }
            lemma_key_position(c.entries, k);
            assert forall|m: int| 0 <= m < rest.len() implies (#[trigger] rest[m]).0 != k by {
                if i < c.entries.len() {
                    if m < i {
                        assert(rest[m] == c.entries[m]);
                    } else {
                        assert(rest[m] == c.entries[m + 1]);
                        assert(c.entries[i as int].0 == k);
                    }
                }
            }
        }
        entries.push((key, objects));
        let ghost e = entry_views(entries@);
        assert(e =~= rest.push((k, o)));
        while entries.len() > limit
            invariant
                limit == c.limit,
                entries.len() <= e.len(),
                entries.len() == e.len() || entries.len() >= limit,
                entry_views(entries@) == e.skip(e.len() - entries.len()),
            decreases entries.len(),
        {
            let ghost before = entry_views(entries@);
            entries.remove(0);
            assert(entry_views(entries@) =~= before.drop_first());
            assert(entry_views(entries@) =~= e.skip(e.len() - entries.len()));
        }
        proof {
            if e.len() <= c.limit {
                assert(e.skip(0) =~= e);
            }
            let es = entry_views(entries@);
            let d = e.len() - es.len();
            assert forall|a: int, b: int| 0 <= a < b < es.len() implies (#[trigger] es[a]).0
                != (#[trigger] es[b]).0 by {
                assert(es[a] == e[a + d]);
                assert(es[b] == e[b + d]);
                if b + d == e.len() - 1 {
                    assert(e[a + d] == rest[a + d]);
                } else {
                    let a0 = if a + d < i { a + d } else { a + d + 1 };
                    let b0 = if b + d < i { b + d } else { b + d + 1 };
                    if i < c.entries.len() {
                        assert(rest[a + d] == c.entries[a0]);
                        assert(rest[b + d] == c.entries[b0]);
                    } else {
                        assert(rest[a + d] == c.entries[a + d]);
                        assert(rest[b + d] == c.entries[b + d]);
                    }
                }
            }
        }
        self.entries = entries;
    }

    /// Forgets every list.
    pub fn clear(&mut self)
        ensures
            final(self)@.limit == old(self)@.limit,
            final(self)@.entries.len() == 0,
            cache_wf(final(self)@),
    {
        self.entries = Vec::new();
        assert(self@.entries =~= Seq::<(CacheKeyView, Seq<ObjectView>)>::empty());
    }
}

/// A list just stored is what a look-up of its key gives, unless the cache
/// keeps no list at all.
pub proof fn lemma_cache_read_after_write(c: CacheView, k: CacheKeyView, objects: Seq<ObjectView>)
    requires
        cache_wf(c),
        c.limit >= 1,
    ensures
        cache_lookup(cache_stored(c, k, objects), k) == Some(objects),
{
    let d = cache_stored(c, k, objects);
    let es = d.entries;
    lemma_key_position(c.entries, k);
    let i = key_position(c.entries, k);
    let rest = if i < c.entries.len() {
        c.entries.remove(i)
    } else {
        c.entries
    };
    let e = rest.push((k, objects));
    assert forall|m: int| 0 <= m < rest.len() implies (#[trigger] rest[m]).0 != k by {
        if i < c.entries.len() {
            if m < i {
                assert(rest[m] == c.entries[m]);
            } else {
                assert(rest[m] == c.entries[m + 1]);
            }
        }
    }
    let n = es.len() - 1;
    assert(es[n] == (k, objects));
    assert forall|m: int| 0 <= m < n implies (#[trigger] es[m]).0 != k by {
        assert(es[m] == e[m + (e.len() - es.len())]);
    }
    lemma_key_position_at(es, k, n);
}

/// A look-up keeps the cache well formed and changes only the order of its
/// lists, not the lists themselves.
pub proof fn lemma_cache_lookup_keeps_lists(c: CacheView, k: CacheKeyView)
    requires
        cache_wf(c),
    ensures
        cache_touched(c, k).entries.to_multiset() == c.entries.to_multiset(),
        cache_touched(c, k).limit == c.limit,
{
    broadcast use vstd::seq_lib::to_multiset_remove, vstd::seq_lib::to_multiset_build;
    broadcast use vstd::multiset::group_multiset_axioms;

    lemma_key_position(c.entries, k);
    let i = key_position(c.entries, k);
    if i < c.entries.len() {
        let x = c.entries[i];
        assert(c.entries.remove(i).push(x).to_multiset() == c.entries.remove(i).to_multiset().insert(x));
        assert(c.entries.remove(i).to_multiset() == c.entries.to_multiset().remove(x));
        assert(c.entries.to_multiset().count(x) > 0) by {
            vstd::seq_lib::to_multiset_contains(c.entries, x);
        }
        assert(c.entries.to_multiset().remove(x).insert(x) =~= c.entries.to_multiset());
    }
}

} // verus!
