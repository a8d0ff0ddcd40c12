//! Kubernetes objects in the object list: their identity and order, the
//! search over them, and how the list takes in watch events.

use vstd::prelude::*;
use crate::order::{lemma_text_less_irreflexive, lemma_text_less_transitive, text_less, text_lt};
use crate::sorted::{first_where, lemma_first_where_at, lemma_first_where_bounds};
use crate::stable::{
    lemma_stable_sort_permutes, lemma_stable_sort_sorted, sorted_by, sorts_after_by,
    stable_sort_by, strict_partial_order,
};
use crate::status::{passes_filters, StatusFilter};
use crate::text::{ascii_lower, contains_str, eq_ignore_ascii_case, has_substring, to_ascii_lowercase, trim, trimmed};

verus! {

/// The CPU and memory that an object uses, as the metrics API writes them.
#[derive(Debug, Clone)]
pub struct ObjectUsage {
    pub cpu: String,
    pub memory: String,
}

pub struct UsageView {
    pub cpu: Seq<char>,
    pub memory: Seq<char>,
}

impl View for ObjectUsage {
    type V = UsageView;

    open spec fn view(&self) -> UsageView {
        UsageView { cpu: self.cpu@, memory: self.memory@ }
    }
}

/// One row of the object list.
#[derive(Debug, Clone)]
pub struct ObjectSummary {
    pub name: String,
    pub namespace: String,
    pub status: String,
    pub api_version: String,
    pub service_target: String,
    pub ingress_target: String,
    pub metrics: Option<ObjectUsage>,
}

pub struct ObjectView {
    pub name: Seq<char>,
    pub namespace: Seq<char>,
    pub status: Seq<char>,
    pub api_version: Seq<char>,
    pub service_target: Seq<char>,
    pub ingress_target: Seq<char>,
    pub metrics: Option<UsageView>,
}

pub open spec fn usage_view(u: Option<ObjectUsage>) -> Option<UsageView> {
    match u {
        Some(x) => Some(x@),
        None => None,
    }
}

impl View for ObjectSummary {
    type V = ObjectView;

    open spec fn view(&self) -> ObjectView {
        ObjectView {
            name: self.name@,
            namespace: self.namespace@,
            status: self.status@,
            api_version: self.api_version@,
            service_target: self.service_target@,
            ingress_target: self.ingress_target@,
            metrics: usage_view(self.metrics),
        }
    }
}

pub open spec fn object_views(s: Seq<ObjectSummary>) -> Seq<ObjectView> {
    s.map_values(|o: ObjectSummary| o@)
}

impl ObjectSummary {
    /// A copy of this object.
    pub fn copy(&self) -> (r: ObjectSummary)
        ensures
            r@ == self@,
    {
        let metrics = match &self.metrics {
            Some(u) => Some(ObjectUsage { cpu: u.cpu.clone(), memory: u.memory.clone() }),
            None => None,
        };
        ObjectSummary {
            name: self.name.clone(),
            namespace: self.namespace.clone(),
            status: self.status.clone(),
            api_version: self.api_version.clone(),
            service_target: self.service_target.clone(),
            ingress_target: self.ingress_target.clone(),
            metrics,
        }
    }
}

/// Two rows stand for the same object: same name in the same namespace.
pub open spec fn same_object_spec(a: ObjectView, b: ObjectView) -> bool {
    a.name == b.name && a.namespace == b.namespace
}

/// Whether two rows stand for the same object.
pub fn same_object(left: &ObjectSummary, right: &ObjectSummary) -> (r: bool)
    ensures
        r == same_object_spec(left@, right@),
{
    left.name == right.name && left.namespace == right.namespace
}

/// The order of the object list: by namespace, then by name.
pub open spec fn object_less(a: ObjectView, b: ObjectView) -> bool {
    text_less(a.namespace, b.namespace) || (a.namespace == b.namespace && text_less(a.name, b.name))
}

pub open spec fn object_order() -> spec_fn(ObjectView, ObjectView) -> bool {
    |a: ObjectView, b: ObjectView| object_less(a, b)
}

pub proof fn lemma_object_order()
    ensures
        strict_partial_order(object_order()),
{
    assert forall|a: ObjectView| !(#[trigger] object_order()(a, a)) by {
        lemma_text_less_irreflexive(a.namespace);
        lemma_text_less_irreflexive(a.name);
    }
    assert forall|a: ObjectView, b: ObjectView, c: ObjectView|
        #[trigger] object_order()(a, b) && #[trigger] object_order()(b, c) implies object_order()(
        a,
        c,
    ) by {
        if text_less(a.namespace, b.namespace) && text_less(b.namespace, c.namespace) {
            lemma_text_less_transitive(a.namespace, b.namespace, c.namespace);
        }
        if text_less(a.name, b.name) && text_less(b.name, c.name) {
            lemma_text_less_transitive(a.name, b.name, c.name);
        }
    }
}

/// Whether `left` sorts before `right` in the object list.
pub fn object_sorts_before(left: &ObjectSummary, right: &ObjectSummary) -> (r: bool)
    ensures
        r == object_less(left@, right@),
{
    text_lt(left.namespace.as_str(), right.namespace.as_str()) || (left.namespace
        == right.namespace && text_lt(left.name.as_str(), right.name.as_str()))
}

/// Sorts the object list by namespace, then name, keeping the order of rows
/// for the same object (a stable sort).
pub fn sort_objects(objects: &mut Vec<ObjectSummary>)
    ensures
        object_views(final(objects)@) == stable_sort_by(object_views(old(objects)@), object_order()),
{
    let ghost c = object_views(objects@);
    let mut sorted: Vec<ObjectSummary> = Vec::new();
    let mut j: usize = 0;
    proof {
        assert(c.take(0) =~= Seq::<ObjectView>::empty());
        assert(object_views(sorted@) =~= Seq::<ObjectView>::empty());
    }
    while j < objects.len()
        invariant
            j <= objects.len(),
            c == object_views(objects@),
            object_views(sorted@) == stable_sort_by(c.take(j as int), object_order()),
        decreases objects.len() - j,
    {
        let ghost t = object_views(sorted@);
        let mut p: usize = 0;
        while p < sorted.len() && !object_sorts_before(&objects[j], &sorted[p])
            invariant
                p <= sorted.len(),
                j < objects.len(),
                c == object_views(objects@),
                t == object_views(sorted@),
                forall|k: int| 0 <= k < p ==> !object_less(c[j as int], #[trigger] t[k]),
            decreases sorted.len() - p,
        {
            p += 1;
        }
        proof {
            lemma_first_where_at(t, sorts_after_by(object_order(), c[j as int]), p as int);
            assert(c.take(j + 1).drop_last() =~= c.take(j as int));
            assert(c.take(j + 1).last() == c[j as int]);
        }
        let o = objects[j].copy();
        sorted.insert(p, o);
        assert(object_views(sorted@) =~= t.insert(p as int, c[j as int]));
        j += 1;
    }
    assert(c.take(objects.len() as int) =~= c);
    *objects = sorted;
}

/// The object list after sorting holds the same rows, and no row sorts
/// before one ahead of it.
pub proof fn lemma_sort_objects(s: Seq<ObjectView>)
    ensures
        stable_sort_by(s, object_order()).to_multiset() == s.to_multiset(),
        sorted_by(stable_sort_by(s, object_order()), object_order()),
{
    lemma_object_order();
    lemma_stable_sort_permutes(s, object_order());
    lemma_stable_sort_sorted(s, object_order());
}

/// `o` matches a lower-cased search query: the query occurs in its name,
/// namespace, status, API version or, when it has metrics, its CPU or
/// memory figure, each taken in lower case.
pub open spec fn object_matches_query(o: ObjectView, query: Seq<char>) -> bool {
    ||| has_substring(ascii_lower(o.name), query)
    ||| has_substring(ascii_lower(o.namespace), query)
    ||| has_substring(ascii_lower(o.status), query)
    ||| has_substring(ascii_lower(o.api_version), query)
    ||| match o.metrics {
        Some(u) => has_substring(ascii_lower(u.cpu), query) || has_substring(
            ascii_lower(u.memory),
            query,
        ),
        None => false,
    }
}

fn lower_contains(text: &str, query: &str) -> (r: bool)
    ensures
        r == has_substring(ascii_lower(text@), query@),
{
    let lower = to_ascii_lowercase(text);
    contains_str(lower.as_str(), query)
}

/// Whether `object` matches a lower-cased search query.
pub fn object_matches(object: &ObjectSummary, query: &str) -> (r: bool)
    ensures
        r == object_matches_query(object@, query@),
{
    lower_contains(object.name.as_str(), query) || lower_contains(object.namespace.as_str(), query)
        || lower_contains(object.status.as_str(), query) || lower_contains(
        object.api_version.as_str(),
        query,
    ) || match &object.metrics {
        Some(u) => lower_contains(u.cpu.as_str(), query) || lower_contains(
            u.memory.as_str(),
            query,
        ),
        None => false,
    }
}

/// What the "Target" column shows: the service target, or the ingress
/// target when there is none.
pub fn object_target(object: &ObjectSummary) -> (r: &str)
    ensures
        r@ == (if object@.service_target.len() == 0 {
            object@.ingress_target
        } else {
            object@.service_target
        }),
{
    if object.service_target.as_str().is_empty() {
        object.ingress_target.as_str()
    } else {
        object.service_target.as_str()
    }
}

/// `objects` after a watch event that adds or changes `o`: the first row for
/// the same object is replaced, or `o` is appended.
pub open spec fn upserted(objects: Seq<ObjectView>, o: ObjectView) -> Seq<ObjectView> {
    let i = first_where(objects, |e: ObjectView| same_object_spec(e, o));
    if i < objects.len() {
        objects.update(i, o)
    } else {
        objects.push(o)
    }
}

/// Takes in a watch event that adds or changes `object`.
pub fn upsert_object(objects: &mut Vec<ObjectSummary>, object: ObjectSummary)
    ensures
        object_views(final(objects)@) == upserted(object_views(old(objects)@), object@),
{
    let ghost s = object_views(objects@);
    let ghost o = object@;
    let ghost f = |e: ObjectView| same_object_spec(e, o);
    let mut i: usize = 0;
    while i < objects.len() && !same_object(&objects[i], &object)
        invariant
            i <= objects.len(),
            s == object_views(objects@),
            o == object@,
            f == (|e: ObjectView| same_object_spec(e, o)),
            forall|k: int| 0 <= k < i ==> !f(#[trigger] s[k]),
        decreases objects.len() - i,
    {
        i += 1;
    }
    proof {
        lemma_first_where_at(s, f, i as int);
    }
    if i < objects.len() {
        objects.set(i, object);
        assert(object_views(objects@) =~= s.update(i as int, o));
    } else {
        objects.push(object);
        assert(object_views(objects@) =~= s.push(o));
    }
}

/// Takes in a watch event that deletes `object`: every row for the same
/// object goes.
pub fn remove_object(objects: &mut Vec<ObjectSummary>, object: &ObjectSummary)
    ensures
        object_views(final(objects)@) == object_views(old(objects)@).filter(
            |e: ObjectView| !same_object_spec(e, object@),
        ),
{
    let ghost s = object_views(objects@);
    let ghost f = |e: ObjectView| !same_object_spec(e, object@);
    let mut kept: Vec<ObjectSummary> = Vec::new();
    let mut i: usize = 0;
    proof {
        assert(s.take(0) =~= Seq::<ObjectView>::empty());
        assert(object_views(kept@) =~= Seq::<ObjectView>::empty());
    }
    while i < objects.len()
        invariant
            i <= objects.len(),
            s == object_views(objects@),
            f == (|e: ObjectView| !same_object_spec(e, object@)),
            object_views(kept@) == s.take(i as int).filter(f),
        decreases objects.len() - i,
    {
        proof {
            assert(s.take(i + 1).drop_last() =~= s.take(i as int));
            assert(s.take(i + 1).last() == s[i as int]);
            assert(objects@[i as int]@ == s[i as int]);
            reveal(Seq::filter);
        }
        if !same_object(&objects[i], object) {
            let o = objects[i].copy();
            kept.push(o);
            assert(object_views(kept@) =~= s.take(i as int).filter(f).push(s[i as int]));
        }
        i += 1;
    }
    assert(s.take(objects.len() as int) =~= s);
    *objects = kept;
}

/// After a watch event that adds or changes an object, the list holds it.
pub proof fn lemma_upserted_lists_object(objects: Seq<ObjectView>, o: ObjectView)
    ensures
        upserted(objects, o).contains(o),
{
    let f = |e: ObjectView| same_object_spec(e, o);
    lemma_first_where_bounds(objects, f);
    let i = first_where(objects, f);
    if i < objects.len() {
        assert(objects.update(i, o)[i] == o);
    } else {
        assert(objects.push(o)[objects.len() as int] == o);
    }
}

proof fn lemma_filter_update_dropped<A>(s: Seq<A>, p: spec_fn(A) -> bool, i: int, x: A)
    requires
        0 <= i < s.len(),
        !p(s[i]),
        !p(x),
    ensures
        s.update(i, x).filter(p) == s.filter(p),
    decreases s.len(),
{
    reveal(Seq::filter);
    let u = s.update(i, x);
    if i == s.len() - 1 {
        assert(u.drop_last() =~= s.drop_last());
    } else {
        assert(u.drop_last() =~= s.drop_last().update(i, x));
        lemma_filter_update_dropped(s.drop_last(), p, i, x);
        assert(u.last() == s.last());
    }
}

/// A deletion event undoes an addition or change of the same object: the
/// list then holds no row for it, as if the object had never come.
pub proof fn lemma_remove_undoes_upsert(objects: Seq<ObjectView>, o: ObjectView)
    ensures
        upserted(objects, o).filter(|e: ObjectView| !same_object_spec(e, o)) == objects.filter(
            |e: ObjectView| !same_object_spec(e, o),
        ),
{
    reveal(Seq::filter);
    let f = |e: ObjectView| same_object_spec(e, o);
    let keep = |e: ObjectView| !same_object_spec(e, o);
    lemma_first_where_bounds(objects, f);
    let i = first_where(objects, f);
    if i < objects.len() {
        lemma_filter_update_dropped(objects, keep, i, o);
    } else {
        assert(objects.push(o).drop_last() =~= objects);
    }
}

/// `o` is shown for a search query and a selection of status filters: its
/// status passes the filters, and the query, trimmed and lower-cased, is
/// blank or matches it.
pub open spec fn object_shown(o: ObjectView, query: Seq<char>, filters: Seq<StatusFilter>) -> bool {
    let q = ascii_lower(trimmed(query));
    passes_filters(o.status, filters) && (q.len() == 0 || object_matches_query(o, q))
}

/// The rows of the object list that a search query and the selected status
/// filters (a set: no filter twice) leave, in order.
pub fn filtered_objects(objects: &Vec<ObjectSummary>, search_query: &str, filters: &[StatusFilter]) -> (r: Vec<ObjectSummary>)
    requires
        filters@.no_duplicates(),
    ensures
        object_views(r@) == object_views(objects@).filter(
            |o: ObjectView| object_shown(o, search_query@, filters@),
        ),
{
    let ghost s = object_views(objects@);
    let ghost f = |o: ObjectView| object_shown(o, search_query@, filters@);
    let trimmed_query = trim(search_query);
    let query = to_ascii_lowercase(trimmed_query.as_str());
    let mut r: Vec<ObjectSummary> = Vec::new();
    let mut i: usize = 0;
    proof {
        assert(s.take(0) =~= Seq::<ObjectView>::empty());
        assert(object_views(r@) =~= Seq::<ObjectView>::empty());
    }
    while i < objects.len()
        invariant
            i <= objects.len(),
            s == object_views(objects@),
            query@ == ascii_lower(trimmed(search_query@)),
            f == (|o: ObjectView| object_shown(o, search_query@, filters@)),
            filters@.no_duplicates(),
            object_views(r@) == s.take(i as int).filter(f),
        decreases objects.len() - i,
    {
        proof {
            assert(s.take(i + 1).drop_last() =~= s.take(i as int));
            assert(s.take(i + 1).last() == s[i as int]);
            assert(objects@[i as int]@ == s[i as int]);
            reveal(Seq::filter);
        }
        if StatusFilter::matches_any(objects[i].status.as_str(), filters) && (
        query.as_str().is_empty() || object_matches(&objects[i], query.as_str())) {
            let o = objects[i].copy();
            r.push(o);
            assert(object_views(r@) =~= s.take(i as int).filter(f).push(s[i as int]));
        }
        i += 1;
    }
    assert(s.take(objects.len() as int) =~= s);
    r
}

/// A condition reported on an object.
#[derive(Debug, Clone)]
pub struct ObjectCondition {
    pub type_: String,
    pub status: String,
    pub reason: String,
    pub message: String,
    pub last_transition: String,
}

/// An event reported about an object.
#[derive(Debug, Clone)]
pub struct ObjectEvent {
    pub type_: String,
    pub reason: String,
    pub message: String,
    pub last_seen: String,
}

/// The icon of a condition: a warning when its status is "False", in any
/// ASCII case.
pub fn condition_icon_name(condition: &ObjectCondition) -> (r: &'static str)
    ensures
        r@ == (if ascii_lower(condition.status@) == ascii_lower("false"@) {
            "dialog-warning-symbolic"@
        } else {
            "dialog-information-symbolic"@
        }),
{
    if eq_ignore_ascii_case(condition.status.as_str(), "false") {
        "dialog-warning-symbolic"
    } else {
        "dialog-information-symbolic"
    }
}

/// The icon of an event: a warning for events of type "Warning", in any
/// ASCII case.
pub fn event_icon_name(event: &ObjectEvent) -> (r: &'static str)
    ensures
        r@ == (if ascii_lower(event.type_@) == ascii_lower("warning"@) {
            "dialog-warning-symbolic"@
        } else {
            "dialog-information-symbolic"@
        }),
{
    if eq_ignore_ascii_case(event.type_.as_str(), "warning") {
        "dialog-warning-symbolic"
    } else {
        "dialog-information-symbolic"
    }
}

} // verus!
