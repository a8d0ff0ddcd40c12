//! Favourite objects: objects that the user pinned, remembered by cluster
//! context, resource kind, namespace and name.

use vstd::prelude::*;
use crate::order::{text_eq, text_less, text_lt};
use crate::resource::{ResourceKind, ResourceScope, ResourceView};
use crate::sorted::lemma_first_where_at;
use crate::stable::{sorts_after_by, stable_sort_by};
use crate::text::{trim, trimmed};

verus! {

/// An object that the user opened: where it lives and what it is.
#[derive(Debug, Clone)]
pub struct DetailTarget {
    pub context: String,
    pub resource: ResourceKind,
    pub namespace: Option<String>,
    pub name: String,
}

pub struct TargetView {
    pub context: Seq<char>,
    pub resource: ResourceView,
    pub namespace: Option<Seq<char>>,
    pub name: Seq<char>,
}

pub open spec fn optional_view(o: Option<String>) -> Option<Seq<char>> {
    match o {
        Some(s) => Some(s@),
        None => None,
    }
}

impl View for DetailTarget {
    type V = TargetView;

    open spec fn view(&self) -> TargetView {
        TargetView {
            context: self.context@,
            resource: self.resource@,
            namespace: optional_view(self.namespace),
            name: self.name@,
        }
    }
}

/// A pinned object.
#[derive(Debug, Clone, PartialEq, Eq)]
pub struct ObjectFavorite {
    pub context: String,
    pub group: String,
    pub version: String,
    pub api_version: String,
    pub kind: String,
    pub plural: String,
    pub namespace: Option<String>,
    pub name: String,
}

pub struct FavoriteView {
    pub context: Seq<char>,
    pub group: Seq<char>,
    pub version: Seq<char>,
    pub api_version: Seq<char>,
    pub kind: Seq<char>,
    pub plural: Seq<char>,
    pub namespace: Option<Seq<char>>,
    pub name: Seq<char>,
}

impl View for ObjectFavorite {
    type V = FavoriteView;

    open spec fn view(&self) -> FavoriteView {
        FavoriteView {
            context: self.context@,
            group: self.group@,
            version: self.version@,
            api_version: self.api_version@,
            kind: self.kind@,
            plural: self.plural@,
            namespace: optional_view(self.namespace),
            name: self.name@,
        }
    }
}

pub open spec fn favorite_views(s: Seq<ObjectFavorite>) -> Seq<FavoriteView> {
    s.map_values(|f: ObjectFavorite| f@)
}

/// The favourite that remembers `t`.
pub open spec fn favorite_of(t: TargetView) -> FavoriteView {
    FavoriteView {
        context: t.context,
        group: t.resource.group,
        version: t.resource.version,
        api_version: t.resource.api_version,
        kind: t.resource.kind,
        plural: t.resource.plural,
        namespace: t.namespace,
        name: t.name,
    }
}

/// `f` pins the object `t`: same context, group, kind, namespace and name.
pub open spec fn favorite_matches(f: FavoriteView, t: TargetView) -> bool {
    &&& f.context == t.context
    &&& f.group == t.resource.group
    &&& f.kind == t.resource.kind
    &&& f.namespace == t.namespace
    &&& f.name == t.name
}

/// A copy of an optional string.
pub fn copy_optional(o: &Option<String>) -> (r: Option<String>)
    ensures
        optional_view(r) == optional_view(*o),
{
    match o {
        Some(s) => Some(s.clone()),
        None => None,
    }
}

/// Whether two optional strings are equal.
pub fn optional_eq(a: &Option<String>, b: &Option<String>) -> (r: bool)
    ensures
        r == (optional_view(*a) == optional_view(*b)),
{
    match (a, b) {
        (Some(x), Some(y)) => text_eq(x.as_str(), y.as_str()),
        (None, None) => true,
        _ => false,
    }
}

/// `None` sorts first, then strings in their order.
pub open spec fn optional_less(a: Option<Seq<char>>, b: Option<Seq<char>>) -> bool {
    match (a, b) {
        (None, Some(_)) => true,
        (Some(x), Some(y)) => text_less(x, y),
        _ => false,
    }
}

pub fn optional_lt(a: &Option<String>, b: &Option<String>) -> (r: bool)
    ensures
        r == optional_less(optional_view(*a), optional_view(*b)),
{
    match (a, b) {
        (None, Some(_)) => true,
        (Some(x), Some(y)) => text_lt(x.as_str(), y.as_str()),
        _ => false,
    }
}

/// The order of favourites: by context, group, kind, namespace, then name.
pub open spec fn favorite_less(a: FavoriteView, b: FavoriteView) -> bool {
    ||| text_less(a.context, b.context)
    ||| a.context == b.context && text_less(a.group, b.group)
    ||| a.context == b.context && a.group == b.group && text_less(a.kind, b.kind)
    ||| a.context == b.context && a.group == b.group && a.kind == b.kind && optional_less(a.namespace, b.namespace)
    ||| a.context == b.context && a.group == b.group && a.kind == b.kind && a.namespace == b.namespace
        && text_less(a.name, b.name)
}

/// A favourite with every field trimmed and a blank namespace dropped.
pub open spec fn clean_favorite(f: FavoriteView) -> FavoriteView {
    FavoriteView {
        context: trimmed(f.context),
        group: trimmed(f.group),
        version: trimmed(f.version),
        api_version: trimmed(f.api_version),
        kind: trimmed(f.kind),
        plural: trimmed(f.plural),
        namespace: match f.namespace {
            Some(n) => if trimmed(n).len() > 0 { Some(trimmed(n)) } else { None },
            None => None,
        },
        name: trimmed(f.name),
    }
}

/// A favourite is kept when it has a context, a kind and a name.
pub open spec fn favorite_kept(f: FavoriteView) -> bool {
    f.context.len() > 0 && f.kind.len() > 0 && f.name.len() > 0
}

/// The favourites of `s`, cleaned, without those that are not kept.
pub open spec fn cleaned_favorites(s: Seq<FavoriteView>) -> Seq<FavoriteView>
    decreases s.len(),
{
    if s.len() == 0 {
        Seq::empty()
    } else if favorite_kept(clean_favorite(s.last())) {
        cleaned_favorites(s.drop_last()).push(clean_favorite(s.last()))
    } else {
        cleaned_favorites(s.drop_last())
    }
}

/// The order of favourites as a relation.
pub open spec fn favorite_order() -> spec_fn(FavoriteView, FavoriteView) -> bool {
    |a: FavoriteView, b: FavoriteView| favorite_less(a, b)
}

/// `s` without the favourites equal to the one just before them.
pub open spec fn dedup_adjacent(s: Seq<FavoriteView>) -> Seq<FavoriteView>
    decreases s.len(),
{
    if s.len() == 0 {
        s
    } else {
        let d = dedup_adjacent(s.drop_last());
        if d.len() > 0 && d.last() == s.last() {
            d
        } else {
            d.push(s.last())
        }
    }
}

/// The favourites after clean-up: cleaned, filtered, sorted, deduplicated.
pub open spec fn normalized_favorites(s: Seq<FavoriteView>) -> Seq<FavoriteView> {
    dedup_adjacent(stable_sort_by(cleaned_favorites(s), favorite_order()))
}

impl ObjectFavorite {
    /// The favourite that remembers `target`.
    pub fn from_target(target: &DetailTarget) -> (r: ObjectFavorite)
        ensures
            r@ == favorite_of(target@),
    {
        ObjectFavorite {
            context: target.context.clone(),
            group: target.resource.group.clone(),
            version: target.resource.version.clone(),
            api_version: target.resource.api_version.clone(),
            kind: target.resource.kind.clone(),
            plural: target.resource.plural.clone(),
            namespace: copy_optional(&target.namespace),
            name: target.name.clone(),
        }
    }

    /// Whether this favourite pins `target`.
    pub fn matches_target(&self, target: &DetailTarget) -> (r: bool)
        ensures
            r == favorite_matches(self@, target@),
    {
        self.context == target.context && self.group == target.resource.group && self.kind
            == target.resource.kind && optional_eq(&self.namespace, &target.namespace) && self.name
            == target.name
    }

    /// The resource kind of the pinned object; namespaced when it has a namespace.
    pub fn resource(&self) -> (r: ResourceKind)
        ensures
            r@ == (ResourceView {
                group: self@.group,
                version: self@.version,
                api_version: self@.api_version,
                kind: self@.kind,
                plural: self@.plural,
                namespaced: self@.namespace is Some,
            }),
    {
        ResourceKind {
            group: self.group.clone(),
            version: self.version.clone(),
            api_version: self.api_version.clone(),
            kind: self.kind.clone(),
            plural: self.plural.clone(),
            scope: if self.namespace.is_some() {
                ResourceScope::Namespaced
            } else {
                ResourceScope::Cluster
            },
        }
    }

    pub fn namespace(&self) -> (r: Option<String>)
        ensures
            optional_view(r) == self@.namespace,
    {
        copy_optional(&self.namespace)
    }

    pub fn kind(&self) -> (r: &str)
        ensures
            r@ == self@.kind,
    {
        self.kind.as_str()
    }

    /// A copy of this favourite.
    pub fn copy(&self) -> (r: ObjectFavorite)
        ensures
            r@ == self@,
    {
        ObjectFavorite {
            context: self.context.clone(),
            group: self.group.clone(),
            version: self.version.clone(),
            api_version: self.api_version.clone(),
            kind: self.kind.clone(),
            plural: self.plural.clone(),
            namespace: copy_optional(&self.namespace),
            name: self.name.clone(),
        }
    }

    /// Whether two favourites are equal in every field.
    pub fn same_as(&self, other: &ObjectFavorite) -> (r: bool)
        ensures
            r == (self@ == other@),
    {
        self.context == other.context && self.group == other.group && self.version
            == other.version && self.api_version == other.api_version && self.kind == other.kind
            && self.plural == other.plural && optional_eq(&self.namespace, &other.namespace)
            && self.name == other.name
    }

    /// Whether this favourite sorts before `other`.
    pub fn sorts_before(&self, other: &ObjectFavorite) -> (r: bool)
        ensures
            r == favorite_less(self@, other@),
    {
        text_lt(self.context.as_str(), other.context.as_str()) || (self.context == other.context
            && (text_lt(self.group.as_str(), other.group.as_str()) || (self.group == other.group
            && (text_lt(self.kind.as_str(), other.kind.as_str()) || (self.kind == other.kind && (
        optional_lt(&self.namespace, &other.namespace) || (optional_eq(
            &self.namespace,
            &other.namespace,
        ) && text_lt(self.name.as_str(), other.name.as_str()))))))))
    }

    /// This favourite with every field trimmed and a blank namespace dropped.
    pub fn cleaned(&self) -> (r: ObjectFavorite)
        ensures
            r@ == clean_favorite(self@),
    {
        let namespace = match &self.namespace {
            Some(n) => {
                let t = trim(n.as_str());
                if t.as_str().is_empty() {
                    None
                } else {
                    Some(t)
                }
            },
            None => None,
        };
        ObjectFavorite {
            context: trim(self.context.as_str()),
            group: trim(self.group.as_str()),
            version: trim(self.version.as_str()),
            api_version: trim(self.api_version.as_str()),
            kind: trim(self.kind.as_str()),
            plural: trim(self.plural.as_str()),
            namespace,
            name: trim(self.name.as_str()),
        }
    }
}

/// The favourites after clean-up: every field trimmed, those without a
/// context, kind or name dropped, sorted stably by `favorite_less`, and runs
/// of equal favourites reduced to one.
pub fn normalize_favorites(favorites: &Vec<ObjectFavorite>) -> (r: Vec<ObjectFavorite>)
    ensures
        favorite_views(r@) == normalized_favorites(favorite_views(favorites@)),
{
    let ghost s = favorite_views(favorites@);
    // Clean up and filter.
    let mut kept: Vec<ObjectFavorite> = Vec::new();
    let mut i: usize = 0;
    proof {
        assert(s.take(0) =~= Seq::<FavoriteView>::empty());
        assert(favorite_views(kept@) =~= Seq::<FavoriteView>::empty());
    }
    while i < favorites.len()
        invariant
            i <= favorites.len(),
            s == favorite_views(favorites@),
            favorite_views(kept@) == cleaned_favorites(s.take(i as int)),
        decreases favorites.len() - i,
    {
        let c = favorites[i].cleaned();
        proof {
            assert(s.take(i + 1).drop_last() =~= s.take(i as int));
            assert(s.take(i + 1).last() == s[i as int]);
        }
        if !c.context.as_str().is_empty() && !c.kind.as_str().is_empty() && !c.name.as_str().is_empty() {
            kept.push(c);
            assert(favorite_views(kept@) =~= cleaned_favorites(s.take(i as int)).push(clean_favorite(s[i as int])));
        }
        i += 1;
    }
    assert(s.take(favorites.len() as int) =~= s);
    // Stable insertion sort.
    let ghost c = favorite_views(kept@);
    let mut sorted: Vec<ObjectFavorite> = Vec::new();
    let mut j: usize = 0;
    proof {
        assert(c.take(0) =~= Seq::<FavoriteView>::empty());
        assert(favorite_views(sorted@) =~= Seq::<FavoriteView>::empty());
    }
    while j < kept.len()
        invariant
            j <= kept.len(),
            c == favorite_views(kept@),
            favorite_views(sorted@) == stable_sort_by(c.take(j as int), favorite_order()),
        decreases kept.len() - j,
    {
        let ghost t = favorite_views(sorted@);
        let mut p: usize = 0;
        while p < sorted.len() && !kept[j].sorts_before(&sorted[p])
            invariant
                p <= sorted.len(),
                j < kept.len(),
                c == favorite_views(kept@),
                t == favorite_views(sorted@),
                forall|k: int| 0 <= k < p ==> !favorite_less(c[j as int], #[trigger] t[k]),
            decreases sorted.len() - p,
        {
            p += 1;
        }
        proof {
            lemma_first_where_at(t, sorts_after_by(favorite_order(), c[j as int]), p as int);
            assert(c.take(j + 1).drop_last() =~= c.take(j as int));
            assert(c.take(j + 1).last() == c[j as int]);
        }
        let f = kept[j].copy();
        sorted.insert(p, f);
        assert(favorite_views(sorted@) =~= t.insert(p as int, c[j as int]));
        j += 1;
    }
    assert(c.take(kept.len() as int) =~= c);
    // Drop runs of equal favourites.
    let ghost u = favorite_views(sorted@);
    let mut out: Vec<ObjectFavorite> = Vec::new();
    let mut k: usize = 0;
    proof {
        assert(u.take(0) =~= Seq::<FavoriteView>::empty());
        assert(favorite_views(out@) =~= Seq::<FavoriteView>::empty());
    }
    while k < sorted.len()
        invariant
            k <= sorted.len(),
            u == favorite_views(sorted@),
            favorite_views(out@) == dedup_adjacent(u.take(k as int)),
        decreases sorted.len() - k,
    {
        proof {
            assert(u.take(k + 1).drop_last() =~= u.take(k as int));
            assert(u.take(k + 1).last() == u[k as int]);
        }
        let n = out.len();
        if n == 0 || !out[n - 1].same_as(&sorted[k]) {
            let f = sorted[k].copy();
            out.push(f);
            assert(favorite_views(out@) =~= dedup_adjacent(u.take(k as int)).push(u[k as int]));
        }
        k += 1;
    }
    assert(u.take(sorted.len() as int) =~= u);
    out
}

} // verus!
