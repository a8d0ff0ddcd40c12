//! The namespace selector: the namespaces offered, with "all" first.

use vstd::prelude::*;
use crate::order::text_eq;
use crate::sorted::{
    contains_text, first_index, lemma_first_index, lemma_sorted_set,
    position_of, sort_dedup, sorted_set, views,
};

verus! {

/// What the custom-namespace entry starts with: the selected namespace,
/// or nothing when "all" namespaces are selected.
pub fn custom_namespace_initial_text(selected_namespace: &str) -> (r: &str)
    ensures
        r@ == (if selected_namespace@ == "all"@ {
            ""@
        } else {
            selected_namespace@
        }),
{
    if text_eq(selected_namespace, "all") {
        ""
    } else {
        selected_namespace
    }
}

pub open spec fn is_not_all() -> spec_fn(Seq<char>) -> bool {
    |n: Seq<char>| n != "all"@
}

/// The namespaces of a cluster as the selector offers them: "all" first,
/// then the others sorted and without duplicates.
pub open spec fn with_all(namespaces: Seq<Seq<char>>) -> Seq<Seq<char>> {
    seq!["all"@] + sorted_set(namespaces.filter(is_not_all()))
}

/// `namespaces` sorted and deduplicated, with "all" in front.
pub fn with_all_namespace(namespaces: Vec<String>) -> (r: Vec<String>)
    ensures
        views(r@) == with_all(views(namespaces@)),
{
    let ghost s = views(namespaces@);
    let mut others: Vec<String> = Vec::new();
    let mut i: usize = 0;
    proof {
        assert(s.take(0) =~= Seq::<Seq<char>>::empty());
        assert(views(others@) =~= Seq::<Seq<char>>::empty());
    }
    while i < namespaces.len()
        invariant
            i <= namespaces.len(),
            s == views(namespaces@),
            views(others@) == s.take(i as int).filter(is_not_all()),
        decreases namespaces.len() - i,
    {
        proof {
            assert(s.take(i + 1).drop_last() =~= s.take(i as int));
            assert(s.take(i + 1).last() == s[i as int]);
            reveal(Seq::filter);
        }
        if !text_eq(namespaces[i].as_str(), "all") {
            others.push(namespaces[i].clone());
            assert(views(others@) =~= s.take(i as int).filter(is_not_all()).push(s[i as int]));
        }
        i += 1;
    }
    assert(s.take(namespaces.len() as int) =~= s);
    let sorted = sort_dedup(&others);
    proof {
        lemma_sorted_set(views(others@));
    }
    let mut r = sorted;
    r.insert(0, String::from_str("all"));
    proof {
        assert(views(r@) =~= seq!["all"@] + views(sorted@));
    }
    r
}

/// The selector's list of a cluster's namespaces begins with "all", names
/// no namespace twice, and offers every namespace the cluster reported.
pub proof fn lemma_with_all(namespaces: Seq<Seq<char>>)
    ensures
        with_all(namespaces)[0] == "all"@,
        with_all(namespaces).no_duplicates(),
        forall|i: int| 0 <= i < namespaces.len() ==> with_all(namespaces).contains(#[trigger] namespaces[i]),
{
    let others = namespaces.filter(is_not_all());
    let s = sorted_set(others);
    let w = with_all(namespaces);
    lemma_sorted_set(others);
    crate::sorted::lemma_strictly_sorted_no_duplicates(s);
    crate::sorted::lemma_filter_elements(namespaces, is_not_all());
    assert forall|k: int| 0 <= k < s.len() implies s[k] != "all"@ by {
        assert(s.to_set().contains(s[k]));
        assert(others.to_set().contains(s[k]));
        let q = choose|q: int| 0 <= q < others.len() && others[q] == s[k];
        assert(is_not_all()(others[q]));
    }
    assert forall|a: int, b: int| 0 <= a < w.len() && 0 <= b < w.len() && a != b implies w[a] != w[b] by {
        if a == 0 {
            assert(w[b] == s[b - 1]);
        } else if b == 0 {
            assert(w[a] == s[a - 1]);
        } else {
            assert(w[a] == s[a - 1] && w[b] == s[b - 1]);
        }
    }
    assert forall|i: int| 0 <= i < namespaces.len() implies w.contains(#[trigger] namespaces[i]) by {
        if namespaces[i] == "all"@ {
            assert(w[0] == namespaces[i]);
        } else {
            assert(others.contains(namespaces[i]));
            assert(others.to_set().contains(namespaces[i]));
            assert(s.to_set().contains(namespaces[i]));
            let q = choose|q: int| 0 <= q < s.len() && s[q] == namespaces[i];
            assert(w[q + 1] == namespaces[i]);
        }
    }
}

/// The namespaces offered, before sorting: the known ones, the project's
/// custom ones, and the selected one when it is neither (and not blank).
pub open spec fn offered_namespaces(
    known: Seq<Seq<char>>,
    custom: Seq<Seq<char>>,
    selected: Seq<char>,
) -> Seq<Seq<char>> {
    let base = known + custom;
    if selected.len() > 0 && !base.contains(selected) {
        base.push(selected)
    } else {
        base
    }
}

/// `s` with the first "all" moved to the front.
pub open spec fn all_in_front(s: Seq<Seq<char>>) -> Seq<Seq<char>> {
    let i = first_index(s, "all"@);
    if i < s.len() {
        seq!["all"@] + s.remove(i)
    } else {
        s
    }
}

/// The choices of the namespace selector: the offered namespaces, sorted,
/// without duplicates, "all" first when it is among them.
pub open spec fn namespace_choices_of(
    known: Seq<Seq<char>>,
    custom: Seq<Seq<char>>,
    selected: Seq<char>,
) -> Seq<Seq<char>> {
    all_in_front(sorted_set(offered_namespaces(known, custom, selected)))
}

/// The choices of the namespace selector for the namespaces that the cluster
/// reported, the selected project's custom namespaces for the cluster, and
/// the selected namespace.
pub fn namespace_choices(known: &Vec<String>, custom: &Vec<String>, selected_namespace: &str) -> (r: Vec<String>)
    ensures
        views(r@) == namespace_choices_of(views(known@), views(custom@), selected_namespace@),
{
    let mut choices = known.clone();
    let mut i: usize = 0;
    assert(views(choices@) =~= views(known@));
    while i < custom.len()
        invariant
            i <= custom.len(),
            views(choices@) == views(known@) + views(custom@).take(i as int),
        decreases custom.len() - i,
    {
        let c = custom[i].clone();
        let ghost before = views(choices@);
        choices.push(c);
        assert(views(custom@).take(i + 1) =~= views(custom@).take(i as int).push(c@));
        assert(views(choices@) =~= before.push(c@));
        i += 1;
    }
    assert(views(custom@).take(custom.len() as int) =~= views(custom@));
    let ghost base = views(choices@);
    if !selected_namespace.is_empty() && !contains_text(&choices, selected_namespace) {
        choices.push(String::from_str(selected_namespace));
        assert(views(choices@) =~= base.push(selected_namespace@));
    }
    let mut sorted = sort_dedup(&choices);
    proof {
        lemma_sorted_set(views(choices@));
    }
    let ghost ss = views(sorted@);
    let p = position_of(&sorted, "all");
    proof {
        lemma_first_index(ss, "all"@);
    }
    if p < sorted.len() {
        let all = sorted.remove(p);
        sorted.insert(0, all);
        assert(views(sorted@) =~= seq!["all"@] + ss.remove(p as int));
    }
    sorted
}

} // verus!
