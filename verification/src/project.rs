//! A project: a named group of cluster contexts, with namespaces that the
//! user added by hand for some of those contexts.

use vstd::prelude::*;
use crate::keyed::{first_per_key, lemma_first_per_key_empty, lemma_first_per_key_step};
use crate::order::{lemma_text_order, text_eq, text_less, text_lt, text_order};
use crate::sorted::{
    first_index, lemma_first_index, lemma_first_index_at, lemma_sorted_set, contains_text,
    position_of, sort_dedup, sorted_set, views,
};
use crate::text::{trim, trimmed};

verus! {

/// The namespaces added by hand for one context.
#[derive(Debug, Clone)]
pub struct ContextNamespaces {
    pub context: String,
    pub namespaces: Vec<String>,
}

pub struct NamespacesView {
    pub context: Seq<char>,
    pub namespaces: Seq<Seq<char>>,
}

impl View for ContextNamespaces {
    type V = NamespacesView;

    open spec fn view(&self) -> NamespacesView {
        NamespacesView { context: self.context@, namespaces: views(self.namespaces@) }
    }
}

pub open spec fn entry_views(s: Seq<ContextNamespaces>) -> Seq<NamespacesView> {
    s.map_values(|e: ContextNamespaces| e@)
}

pub open spec fn entry_contexts(es: Seq<NamespacesView>) -> Seq<Seq<char>> {
    es.map_values(|e: NamespacesView| e.context)
}

/// The position of the first entry for context `c`, or `es.len()`.
pub open spec fn context_index(es: Seq<NamespacesView>, c: Seq<char>) -> int {
    first_index(entry_contexts(es), c)
}

/// The namespaces of the first entry for context `c`; none if there is none.
pub open spec fn namespaces_for_context(es: Seq<NamespacesView>, c: Seq<char>) -> Seq<Seq<char>> {
    let i = context_index(es, c);
    if i < es.len() {
        es[i].namespaces
    } else {
        Seq::empty()
    }
}

/// A namespace survives clean-up when, trimmed, it is neither empty nor `all`.
pub open spec fn keeps_namespace(n: Seq<char>) -> bool {
    trimmed(n).len() > 0 && trimmed(n) != "all"@
}

/// The namespaces that survive clean-up, trimmed, in their order.
pub open spec fn kept_namespaces(ns: Seq<Seq<char>>) -> Seq<Seq<char>>
    decreases ns.len(),
{
    if ns.len() == 0 {
        Seq::empty()
    } else if keeps_namespace(ns.last()) {
        kept_namespaces(ns.drop_last()).push(trimmed(ns.last()))
    } else {
        kept_namespaces(ns.drop_last())
    }
}

/// A namespace list after clean-up: the surviving namespaces, trimmed,
/// sorted and without duplicates.
pub open spec fn clean_namespaces(ns: Seq<Seq<char>>) -> Seq<Seq<char>> {
    sorted_set(kept_namespaces(ns))
}

/// An entry after clean-up: its context trimmed, its namespaces cleaned.
pub open spec fn clean_entry(e: NamespacesView) -> NamespacesView {
    NamespacesView { context: trimmed(e.context), namespaces: clean_namespaces(e.namespaces) }
}

/// An entry survives clean-up when it has a context and a namespace left.
pub open spec fn entry_kept(e: NamespacesView) -> bool {
    clean_entry(e).context.len() > 0 && clean_entry(e).namespaces.len() > 0
}

pub open spec fn entry_kept_fn() -> spec_fn(NamespacesView) -> bool {
    |e: NamespacesView| entry_kept(e)
}

pub open spec fn clean_entry_fn() -> spec_fn(NamespacesView) -> NamespacesView {
    |e: NamespacesView| clean_entry(e)
}

pub open spec fn entry_context_fn() -> spec_fn(NamespacesView) -> Seq<char> {
    |e: NamespacesView| e.context
}

/// `r` is `es` cleaned up: one entry per context, in context order, each the
/// cleaned first surviving entry that `es` has for that context.
pub open spec fn normalized_entries(r: Seq<NamespacesView>, es: Seq<NamespacesView>) -> bool {
    first_per_key(r, es, entry_kept_fn(), clean_entry_fn(), entry_context_fn(), text_order())
}

/// The namespaces that are not `x`.
pub open spec fn differs_from(x: Seq<char>) -> spec_fn(Seq<char>) -> bool {
    |n: Seq<char>| n != x
}

/// The entries that still hold a namespace.
pub open spec fn has_namespaces() -> spec_fn(NamespacesView) -> bool {
    |e: NamespacesView| e.namespaces.len() > 0
}

/// A project: a name, the contexts it groups, and hand-added namespaces.
#[derive(Debug, Clone)]
pub struct Project {
    pub name: String,
    pub contexts: Vec<String>,
    pub custom_namespaces_by_context: Vec<ContextNamespaces>,
}

pub struct ProjectView {
    pub name: Seq<char>,
    pub contexts: Seq<Seq<char>>,
    pub custom: Seq<NamespacesView>,
}

impl View for Project {
    type V = ProjectView;

    open spec fn view(&self) -> ProjectView {
        ProjectView {
            name: self.name@,
            contexts: views(self.contexts@),
            custom: entry_views(self.custom_namespaces_by_context@),
        }
    }
}

/// What adding `namespace` for `context` does: refused (false, nothing
/// changes) when either is empty or the namespace is already in the first
/// entry for the context; else that entry gets its list sorted without
/// duplicates, or a context without an entry gets a new one and the whole
/// table is cleaned up.
pub open spec fn adds_custom_namespace(
    before: ProjectView,
    after: ProjectView,
    context: Seq<char>,
    namespace: Seq<char>,
    r: bool,
) -> bool {
    let es = before.custom;
    let i = context_index(es, context);
    &&& after.name == before.name
    &&& after.contexts == before.contexts
    &&& r == (context.len() > 0 && namespace.len() > 0 && !(i < es.len()
        && es[i].namespaces.contains(namespace)))
    &&& !r ==> after.custom == es
    &&& r && i < es.len() ==> after.custom == es.update(
        i,
        NamespacesView {
            context: es[i].context,
            namespaces: sorted_set(es[i].namespaces.push(namespace)),
        },
    )
    &&& r && i == es.len() ==> normalized_entries(
        after.custom,
        es.push(NamespacesView { context, namespaces: seq![namespace] }),
    )
}

/// What removing `namespace` for `context` does: it leaves the first entry
/// for the context, and every entry left without namespaces goes; whether
/// it was there.
pub open spec fn removes_custom_namespace(
    before: ProjectView,
    after: ProjectView,
    context: Seq<char>,
    namespace: Seq<char>,
    r: bool,
) -> bool {
    let es = before.custom;
    let i = context_index(es, context);
    &&& after.name == before.name
    &&& after.contexts == before.contexts
    &&& i == es.len() ==> !r && after.custom == es
    &&& i < es.len() ==> r == es[i].namespaces.contains(namespace) && after.custom == es.update(
        i,
        NamespacesView {
            context: es[i].context,
            namespaces: es[i].namespaces.filter(differs_from(namespace)),
        },
    ).filter(has_namespaces())
}

/// What renaming `old_name` to `new_name` (trimmed) for `context` does:
/// refused (false, nothing changes) when the new name is blank or equals
/// the old one, when the context has no entry, when the new name is
/// already in its list or the old one is not; else the first occurrence
/// is replaced and the list sorted without duplicates.
pub open spec fn renames_custom_namespace(
    before: ProjectView,
    after: ProjectView,
    context: Seq<char>,
    old_name: Seq<char>,
    new_name: Seq<char>,
    r: bool,
) -> bool {
    let es = before.custom;
    let nt = trimmed(new_name);
    let i = context_index(es, context);
    let ns = es[i].namespaces;
    let j = first_index(ns, old_name);
    let ok = nt.len() > 0 && nt != old_name && i < es.len() && !ns.contains(nt) && j < ns.len();
    &&& after.name == before.name
    &&& after.contexts == before.contexts
    &&& r == ok
    &&& !ok ==> after.custom == es
    &&& ok ==> after.custom == es.update(
        i,
        NamespacesView { context: es[i].context, namespaces: sorted_set(ns.update(j, nt)) },
    )
}

pub open spec fn optional_text(o: Option<&str>) -> Option<Seq<char>> {
    match o {
        Some(s) => Some(s@),
        None => None,
    }
}

/// A copy of `e`.
pub fn copy_entry(e: &ContextNamespaces) -> (r: ContextNamespaces)
    ensures
        r@ == e@,
{
    let namespaces = e.namespaces.clone();
    assert(views(namespaces@) =~= views(e.namespaces@));
    ContextNamespaces { context: e.context.clone(), namespaces }
}

/// The position of the first entry for `context`, or the number of entries.
pub fn find_context(es: &Vec<ContextNamespaces>, context: &str) -> (i: usize)
    ensures
        i == context_index(entry_views(es@), context@),
{
    let ghost cs = entry_contexts(entry_views(es@));
    let mut i: usize = 0;
    while i < es.len()
        invariant
            i <= es.len(),
            cs == entry_contexts(entry_views(es@)),
            forall|k: int| 0 <= k < i ==> cs[k] != context@,
        decreases es.len() - i,
    {
        if text_eq(es[i].context.as_str(), context) {
            proof {
                lemma_first_index_at(cs, context@, i as int);
            }
            return i;
        }
        i += 1;
    }
    proof {
        lemma_first_index_at(cs, context@, i as int);
    }
    i
}

/// The namespace list `ns` cleaned up: trimmed, without blanks and `all`,
/// sorted, without duplicates.
pub fn clean_namespace_list(ns: &Vec<String>) -> (r: Vec<String>)
    ensures
        views(r@) == clean_namespaces(views(ns@)),
{
    let ghost s = views(ns@);
    let mut acc: Vec<String> = Vec::new();
    let mut i: usize = 0;
    proof {
        assert(s.take(0) =~= Seq::<Seq<char>>::empty());
        assert(views(acc@) =~= Seq::<Seq<char>>::empty());
    }
    while i < ns.len()
        invariant
            i <= ns.len(),
            s == views(ns@),
            views(acc@) == kept_namespaces(s.take(i as int)),
        decreases ns.len() - i,
    {
        let t = trim(ns[i].as_str());
        proof {
            assert(s.take(i + 1).drop_last() =~= s.take(i as int));
            assert(s.take(i + 1).last() == s[i as int]);
        }
        if !t.as_str().is_empty() && !text_eq(t.as_str(), "all") {
            acc.push(t);
            assert(views(acc@) =~= kept_namespaces(s.take(i as int)).push(trimmed(s[i as int])));
        }
        i += 1;
    }
    assert(s.take(ns.len() as int) =~= s);
    let r = sort_dedup(&acc);
    proof {
        lemma_sorted_set(views(acc@));
    }
    r
}

/// The namespaces of `ns` other than `x`; whether `x` was among them.
pub fn without_text(ns: &Vec<String>, x: &str) -> (r: (Vec<String>, bool))
    ensures
        views(r.0@) == views(ns@).filter(differs_from(x@)),
        r.1 == views(ns@).contains(x@),
{
    let ghost s = views(ns@);
    let mut acc: Vec<String> = Vec::new();
    let mut found = false;
    let mut i: usize = 0;
    proof {
        reveal(Seq::filter);
        assert(s.take(0) =~= Seq::<Seq<char>>::empty());
        assert(views(acc@) =~= Seq::<Seq<char>>::empty());
    }
    while i < ns.len()
        invariant
            i <= ns.len(),
            s == views(ns@),
            views(acc@) == s.take(i as int).filter(differs_from(x@)),
            found == s.take(i as int).contains(x@),
        decreases ns.len() - i,
    {
        proof {
            reveal(Seq::filter);
            assert(s.take(i + 1).drop_last() =~= s.take(i as int));
            assert(s.take(i + 1).last() == s[i as int]);
        }
        if text_eq(ns[i].as_str(), x) {
            found = true;
            assert(s.take(i + 1)[i as int] == x@);
        } else {
            acc.push(ns[i].clone());
            assert(views(acc@) =~= s.take(i as int).filter(differs_from(x@)).push(s[i as int]));
            assert(s.take(i + 1).contains(x@) ==> s.take(i as int).contains(x@)) by {
                if s.take(i + 1).contains(x@) {
                    let k = choose|k: int| 0 <= k < i + 1 && #[trigger] s.take(i + 1)[k] == x@;
                    assert(s.take(i as int)[k] == x@);
                }
            }
        }
        assert(s.take(i as int).contains(x@) ==> s.take(i + 1).contains(x@)) by {
            if s.take(i as int).contains(x@) {
                let k = choose|k: int| 0 <= k < i && #[trigger] s.take(i as int)[k] == x@;
                assert(s.take(i + 1)[k] == x@);
            }
        }
        i += 1;
    }
    assert(s.take(ns.len() as int) =~= s);
    (acc, found)
}

impl Project {
    /// The hand-added namespaces of `context` (none without a context).
    pub fn custom_namespaces_for_context(&self, context: Option<&str>) -> (r: Vec<String>)
        ensures
            views(r@) == match optional_text(context) {
                Some(c) => namespaces_for_context(self@.custom, c),
                None => Seq::empty(),
            },
    {
        match context {
            None => Vec::new(),
            Some(c) => {
                let i = find_context(&self.custom_namespaces_by_context, c);
                if i < self.custom_namespaces_by_context.len() {
                    let r = self.custom_namespaces_by_context[i].namespaces.clone();
                    assert(views(r@) =~= views(self.custom_namespaces_by_context@[i as int].namespaces@));
                    r
                } else {
                    Vec::new()
                }
            },
        }
    }

    /// Whether `namespace` was added by hand for `context`.
    pub fn has_custom_namespace(&self, context: Option<&str>, namespace: &str) -> (r: bool)
        ensures
            r == match optional_text(context) {
                Some(c) => namespaces_for_context(self@.custom, c).contains(namespace@),
                None => false,
            },
    {
        let namespaces = self.custom_namespaces_for_context(context);
        contains_text(&namespaces, namespace)
    }

    /// Adds `namespace` to the hand-added namespaces of `context`. Refused
    /// (false, nothing changes) when either is empty or the namespace is
    /// already there. The first entry for `context` gets its list sorted
    /// without duplicates; a context without an entry gets a new one, and the
    /// whole table is then cleaned up.
    pub fn add_custom_namespace(&mut self, context: &str, namespace: &str) -> (r: bool)
        ensures
            adds_custom_namespace(old(self)@, final(self)@, context@, namespace@, r),
    {
        if context.is_empty() || namespace.is_empty() {
            return false;
        }
        let ghost es = self@.custom;
        let i = find_context(&self.custom_namespaces_by_context, context);
        proof {
            lemma_first_index(entry_contexts(es), context@);
        }
        if i < self.custom_namespaces_by_context.len() {
            if contains_text(&self.custom_namespaces_by_context[i].namespaces, namespace) {
                return false;
            }
            let mut namespaces = self.custom_namespaces_by_context[i].namespaces.clone();
            namespaces.push(namespace.to_owned());
            let sorted = sort_dedup(&namespaces);
            proof {
                assert(views(namespaces@) =~= es[i as int].namespaces.push(namespace@));
                lemma_sorted_set(views(namespaces@));
            }
            let entry = ContextNamespaces {
                context: self.custom_namespaces_by_context[i].context.clone(),
                namespaces: sorted,
            };
            self.custom_namespaces_by_context.set(i, entry);
            assert(self@.custom =~= es.update(
                i as int,
                NamespacesView {
                    context: es[i as int].context,
                    namespaces: sorted_set(es[i as int].namespaces.push(namespace@)),
                },
            ));
            return true;
        }
        let entry = ContextNamespaces {
            context: context.to_owned(),
            namespaces: vec![namespace.to_owned()],
        };
        assert(views(entry.namespaces@) =~= seq![namespace@]);
        self.custom_namespaces_by_context.push(entry);
        assert(self@.custom =~= es.push(
            NamespacesView { context: context@, namespaces: seq![namespace@] },
        ));
        self.normalize_custom_namespaces();
        true
    }

    /// Removes `namespace` from the first entry for `context`, then drops
    /// every entry left without namespaces; whether it was there.
    pub fn remove_custom_namespace(&mut self, context: &str, namespace: &str) -> (r: bool)
        ensures
            removes_custom_namespace(old(self)@, final(self)@, context@, namespace@, r),
    {
        let ghost es = self@.custom;
        let i = find_context(&self.custom_namespaces_by_context, context);
        proof {
            lemma_first_index(entry_contexts(es), context@);
        }
        if i == self.custom_namespaces_by_context.len() {
            return false;
        }
        let (namespaces, removed) = without_text(&self.custom_namespaces_by_context[i].namespaces, namespace);
        let entry = ContextNamespaces {
            context: self.custom_namespaces_by_context[i].context.clone(),
            namespaces,
        };
        self.custom_namespaces_by_context.set(i, entry);
        let ghost es1 = self@.custom;
        assert(es1 =~= es.update(
            i as int,
            NamespacesView {
                context: es[i as int].context,
                namespaces: es[i as int].namespaces.filter(differs_from(namespace@)),
            },
        ));
        let mut out: Vec<ContextNamespaces> = Vec::new();
        let mut k: usize = 0;
        proof {
            reveal(Seq::filter);
            assert(es1.take(0) =~= Seq::<NamespacesView>::empty());
            assert(entry_views(out@) =~= Seq::<NamespacesView>::empty());
        }
        while k < self.custom_namespaces_by_context.len()
            invariant
                k <= self.custom_namespaces_by_context.len(),
                es1 == self@.custom,
                entry_views(out@) == es1.take(k as int).filter(has_namespaces()),
            decreases self.custom_namespaces_by_context.len() - k,
        {
            proof {
                reveal(Seq::filter);
                assert(es1.take(k + 1).drop_last() =~= es1.take(k as int));
                assert(es1.take(k + 1).last() == es1[k as int]);
            }
            if !self.custom_namespaces_by_context[k].namespaces.is_empty() {
                let e = copy_entry(&self.custom_namespaces_by_context[k]);
                out.push(e);
                assert(entry_views(out@) =~= es1.take(k as int).filter(has_namespaces()).push(es1[k as int]));
            }
            k += 1;
        }
        assert(es1.take(es1.len() as int) =~= es1);
        self.custom_namespaces_by_context = out;
        removed
    }

    /// Renames the hand-added namespace `old_name` of `context` to `new_name`, trimmed,
    /// and re-sorts that list. Refused (false, nothing changes) when the new
    /// name is blank or equals `old_name`, when the context has no entry, when the
    /// new name is already in the list, or when `old_name` is not.
    pub fn rename_custom_namespace(&mut self, context: &str, old_name: &str, new_name: &str) -> (r: bool)
        ensures
            renames_custom_namespace(old(self)@, final(self)@, context@, old_name@, new_name@, r),
    {
        let ghost es = self@.custom;
        let new = trim(new_name);
        if new.as_str().is_empty() || text_eq(new.as_str(), old_name) {
            return false;
        }
        let i = find_context(&self.custom_namespaces_by_context, context);
        proof {
            lemma_first_index(entry_contexts(es), context@);
        }
        if i == self.custom_namespaces_by_context.len() {
            return false;
        }
        if contains_text(&self.custom_namespaces_by_context[i].namespaces, new.as_str()) {
            return false;
        }
        let j = position_of(&self.custom_namespaces_by_context[i].namespaces, old_name);
        proof {
            lemma_first_index(es[i as int].namespaces, old_name@);
        }
        if j == self.custom_namespaces_by_context[i].namespaces.len() {
            return false;
        }
        let ghost ns = es[i as int].namespaces;
        let mut namespaces = self.custom_namespaces_by_context[i].namespaces.clone();
        namespaces.set(j, new);
        let sorted = sort_dedup(&namespaces);
        proof {
            assert(views(namespaces@) =~= ns.update(j as int, trimmed(new_name@)));
            lemma_sorted_set(views(namespaces@));
        }
        let entry = ContextNamespaces {
            context: self.custom_namespaces_by_context[i].context.clone(),
            namespaces: sorted,
        };
        self.custom_namespaces_by_context.set(i, entry);
        assert(self@.custom =~= es.update(
            i as int,
            NamespacesView { context: es[i as int].context, namespaces: sorted_set(ns.update(j as int, trimmed(new_name@))) },
        ));
        true
    }

    /// Cleans up the hand-added namespaces: see `normalized_entries`.
    pub fn normalize_custom_namespaces(&mut self)
        ensures
            final(self)@.name == old(self)@.name,
            final(self)@.contexts == old(self)@.contexts,
            normalized_entries(final(self)@.custom, old(self)@.custom),
    {
        let ghost es = self@.custom;
        let mut out: Vec<ContextNamespaces> = Vec::new();
        let mut i: usize = 0;
        proof {
            lemma_text_order();
            lemma_first_per_key_empty(entry_kept_fn(), clean_entry_fn(), entry_context_fn(), text_order());
            assert(es.take(0) =~= Seq::<NamespacesView>::empty());
            assert(entry_views(out@) =~= Seq::<NamespacesView>::empty());
        }
        while i < self.custom_namespaces_by_context.len()
            invariant
                i <= self.custom_namespaces_by_context.len(),
                es == self@.custom,
                normalized_entries(entry_views(out@), es.take(i as int)),
            decreases self.custom_namespaces_by_context.len() - i,
        {
            let ghost r = entry_views(out@);
            let context = trim(self.custom_namespaces_by_context[i].context.as_str());
            let namespaces = clean_namespace_list(&self.custom_namespaces_by_context[i].namespaces);
            let mut p: usize = 0;
            while p < out.len() && text_lt(out[p].context.as_str(), context.as_str())
                invariant
                    p <= out.len(),
                    r == entry_views(out@),
                    forall|k: int| 0 <= k < p ==> text_less(#[trigger] r[k].context, context@),
                decreases out.len() - p,
            {
                p += 1;
            }
            proof {
                lemma_text_order();
                assert(clean_entry(es[i as int]).context == context@);
                assert(clean_entry(es[i as int]).namespaces == views(namespaces@));
                lemma_first_per_key_step(r, es.take(i as int), es[i as int], entry_kept_fn(), clean_entry_fn(), entry_context_fn(), text_order(), p as int);
                assert(es.take(i as int).push(es[i as int]) =~= es.take(i + 1));
            }
            let present = p < out.len() && out[p].context == context;
            if !context.as_str().is_empty() && !namespaces.is_empty() && !present {
                let entry = ContextNamespaces { context, namespaces };
                out.insert(p, entry);
                assert(entry_views(out@) =~= r.insert(p as int, clean_entry(es[i as int])));
            }
            i += 1;
        }
        assert(es.take(es.len() as int) =~= es);
        self.custom_namespaces_by_context = out;
    }
}

} // verus!
