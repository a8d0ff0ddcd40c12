//! What the project store and its projects promise across calls: a value
//! set is the value read back, an entry added is listed, one removed is gone.

use vstd::prelude::*;
use crate::columns::{
    OBJECT_COLUMN_MIN_WIDTH, OBJECT_NAME_MIN_WIDTH, ObjectColumn, column_index,
    default_column_width, lemma_all_columns,
};
use crate::favorite::{
    FavoriteView, TargetView, clean_favorite, cleaned_favorites, dedup_adjacent, favorite_kept,
    favorite_less,
    favorite_matches, favorite_of, favorite_order, normalized_favorites, optional_less,
};
use crate::keyed::{
    clean_key, first_kept, first_per_key, has_first_kept, lemma_first_per_key_lookup,
    lemma_first_per_key_of_itself, lemma_first_per_key_unique,
};
use crate::order::{
    lemma_text_less_total,
    lemma_text_less_irreflexive, lemma_text_less_transitive, lemma_text_order, text_less,
    text_order,
};
use crate::project::{
    NamespacesView, ProjectView, adds_custom_namespace, clean_entry, clean_entry_fn, context_index,
    differs_from, entry_context_fn, entry_contexts, entry_kept, entry_kept_fn, has_namespaces,
    keeps_namespace, kept_namespaces, namespaces_for_context, normalized_entries,
    removes_custom_namespace, renames_custom_namespace,
};
use crate::sorted::{
    first_index, first_where, is_sorted_set_of, lemma_filter_elements, lemma_first_index,
    lemma_first_index_at, lemma_first_where_at, lemma_first_where_bounds, lemma_sorted_set, lemma_strictly_sorted_no_duplicates, sorted_set,
    strictly_sorted,
};
use crate::stable::{
    lemma_stable_sort_permutes, lemma_stable_sort_sorted, sorted_by, sorts_after_by,
    stable_sort_by, strict_partial_order,
};
use crate::store::{
    SelectionView, StoreView, WidthView, adds_contexts, any_width_fn, clamp_width_fn,
    clean_selection_fn, cleaned_contexts, context_names, contexts_normalized,
    differs_from_favorite, entry_not_in, int_order, lemma_int_order, loaded_store, named_in,
    normalized_selections, normalized_widths, not_default_width, other_column, other_context, project_names,
    project_normalized, pruned_contexts, remembered_namespace, removes_context, selected_index,
    selection_context_fn, selection_contexts, selection_kept_fn, sets_column_width,
    sets_last_namespace, sets_name_width, shown_column_width, shown_name_width, toggled_favorites,
    width_column_fn,
};
use crate::text::{lemma_trimmed_idempotent, trimmed};

verus! {

/// The namespace remembered for a context is the one last set for it (both
/// trimmed), in a store whose remembered contexts are trimmed, as clean-up
/// leaves them.
pub proof fn lemma_last_namespace_read_after_write(
    before: StoreView,
    after: StoreView,
    context: Seq<char>,
    namespace: Seq<char>,
    r: bool,
)
    requires
        sets_last_namespace(before, after, context, namespace, r),
        trimmed(context).len() > 0,
        trimmed(namespace).len() > 0,
        forall|k: int|
            0 <= k < before.last_namespaces.len() ==> trimmed(
                #[trigger] before.last_namespaces[k].context,
            ) == before.last_namespaces[k].context,
    ensures
        remembered_namespace(after.last_namespaces, trimmed(context)) == Some(trimmed(namespace)),
{
    let es = before.last_namespaces;
    let c = trimmed(context);
    let n = trimmed(namespace);
    let cs = selection_contexts(es);
    lemma_first_index(cs, c);
    let i = first_index(cs, c);
    let e = SelectionView { context: c, namespace: n };
    if i < es.len() {
        let es2 = es.update(i, e);
        assert forall|m: int| 0 <= m < i implies selection_contexts(es2)[m] != c by {
            assert(selection_contexts(es2)[m] == cs[m]);
        }
        lemma_first_index_at(selection_contexts(es2), c, i);
    } else {
        let es2 = es.push(e);
        lemma_trimmed_idempotent(context);
        lemma_trimmed_idempotent(namespace);
        let kept = selection_kept_fn();
        let clean = clean_selection_fn();
        let key = selection_context_fn();
        assert(clean(e) == e);
        assert forall|m: int| 0 <= m < es.len() implies !(kept(es2[m]) && clean_key(
            #[trigger] es2[m],
            clean,
            key,
        ) == c) by {
            assert(es2[m] == es[m]);
            assert(cs[m] != c);
        }
        assert(es2[es.len() as int] == e);
        assert(first_kept(es2, kept, clean, key, clean_key(es2[es.len() as int], clean, key), es.len() as int));
        lemma_text_order();
        let k = lemma_first_per_key_lookup(
            after.last_namespaces,
            es2,
            kept,
            clean,
            key,
            text_order(),
            es.len() as int,
        );
        let ls = after.last_namespaces;
        assert forall|m: int| 0 <= m < k implies selection_contexts(ls)[m] != c by {
            assert(key(ls[m]) != key(ls[k]));
        }
        lemma_first_index_at(selection_contexts(ls), c, k);
    }
}

/// Remembering again the namespace a context already remembers changes
/// nothing and reports no change.
pub proof fn lemma_last_namespace_set_again(
    before: StoreView,
    after: StoreView,
    context: Seq<char>,
    namespace: Seq<char>,
    r: bool,
)
    requires
        sets_last_namespace(before, after, context, namespace, r),
        remembered_namespace(before.last_namespaces, trimmed(context)) == Some(trimmed(namespace)),
    ensures
        !r,
        after.last_namespaces == before.last_namespaces,
{
    let es = before.last_namespaces;
    let c = trimmed(context);
    let cs = selection_contexts(es);
    lemma_first_index(cs, c);
    let i = first_index(cs, c);
    if c.len() > 0 && trimmed(namespace).len() > 0 {
        assert(cs[i] == es[i].context);
        assert(es.update(i, SelectionView { context: c, namespace: trimmed(namespace) }) =~= es);
    }
}

/// Remembering a namespace for one context leaves what every other context
/// remembers as it was, in a store whose remembered entries are clean
/// (trimmed, with a context and a namespace), as clean-up leaves them.
#[verifier::spinoff_prover]
pub proof fn lemma_last_namespace_others_kept(
    before: StoreView,
    after: StoreView,
    context: Seq<char>,
    namespace: Seq<char>,
    r: bool,
    other: Seq<char>,
)
    requires
        sets_last_namespace(before, after, context, namespace, r),
        forall|k: int|
            0 <= k < before.last_namespaces.len() ==> selection_kept_fn()(#[trigger] before.last_namespaces[k])
                && clean_selection_fn()(before.last_namespaces[k]) == before.last_namespaces[k],
        other != trimmed(context),
    ensures
        remembered_namespace(after.last_namespaces, other) == remembered_namespace(before.last_namespaces, other),
{
    let es = before.last_namespaces;
    let c = trimmed(context);
    let n = trimmed(namespace);
    let cs = selection_contexts(es);
    lemma_first_index(cs, c);
    lemma_first_index(cs, other);
    let i = first_index(cs, c);
    let e = SelectionView { context: c, namespace: n };
    if c.len() == 0 || n.len() == 0 {
    } else if i < es.len() {
        let es2 = es.update(i, e);
        assert(selection_contexts(es2) =~= cs);
    } else {
        let es2 = es.push(e);
        let ls = after.last_namespaces;
        let kept = selection_kept_fn();
        let clean = clean_selection_fn();
        let key = selection_context_fn();
        lemma_trimmed_idempotent(context);
        lemma_trimmed_idempotent(namespace);
        assert(clean(e) == e);
        assert forall|m: int| 0 <= m < es2.len() implies kept(#[trigger] es2[m]) && clean(es2[m]) == es2[m] by {
            if m < es.len() {
                assert(es2[m] == es[m]);
            }
        }
        lemma_text_order();
        let j = first_index(cs, other);
        if j < es.len() {
            assert forall|m: int| 0 <= m < j implies !(kept(es2[m]) && clean_key(
                #[trigger] es2[m],
                clean,
                key,
            ) == other) by {
                assert(es2[m] == es[m]);
                assert(cs[m] != other);
            }
            assert(es2[j] == es[j]);
            let k = lemma_first_per_key_lookup(ls, es2, kept, clean, key, text_order(), j);
            assert forall|m: int| 0 <= m < k implies selection_contexts(ls)[m] != other by {
                assert(key(ls[m]) != key(ls[k]));
            }
            lemma_first_index_at(selection_contexts(ls), other, k);
        } else {
            assert forall|m: int| 0 <= m < ls.len() implies selection_contexts(ls)[m] != other by {
                assert(has_first_kept(es2, kept, clean, key, ls[m]));
                let q = choose|q: int| #[trigger] first_kept(es2, kept, clean, key, key(ls[m]), q) && ls[m] == clean(es2[q]);
                if q < es.len() {
                    assert(es2[q] == es[q]);
                    assert(cs[q] == es[q].context);
                    assert(cs.contains(es[q].context));
                }
            }
            lemma_first_index_at(selection_contexts(ls), other, ls.len() as int);
        }
    }
}

/// The name column is shown with the width last set for it, raised to the
/// minimum: there is a minimum and no maximum.
pub proof fn lemma_name_width_read_after_write(before: StoreView, after: StoreView, width: int, r: bool)
    requires
        sets_name_width(before, after, width, r),
    ensures
        shown_name_width(after.name_width) == (if width < OBJECT_NAME_MIN_WIDTH {
            OBJECT_NAME_MIN_WIDTH as int
        } else {
            width
        }),
{
}

/// A data column is shown with the width last set for it, raised to the
/// minimum: there is a minimum and no maximum.
pub proof fn lemma_column_width_read_after_write(
    before: StoreView,
    after: StoreView,
    c: ObjectColumn,
    width: int,
    r: bool,
)
    requires
        sets_column_width(before, after, c, width, r),
    ensures
        shown_column_width(after.widths, c) == (if width < OBJECT_COLUMN_MIN_WIDTH {
            OBJECT_COLUMN_MIN_WIDTH as int
        } else {
            width
        }),
{
    let w = if width < OBJECT_COLUMN_MIN_WIDTH {
        OBJECT_COLUMN_MIN_WIDTH as int
    } else {
        width
    };
    let ws = before.widths;
    let cols = ws.map_values(|e: WidthView| e.column);
    lemma_first_index(cols, c);
    let i = first_index(cols, c);
    let aw = after.widths;
    let acols = aw.map_values(|e: WidthView| e.column);
    lemma_first_index(acols, c);
    let ai = first_index(acols, c);
    if w == default_column_width(c) {
        lemma_filter_elements(ws, other_column(c));
        if ai < aw.len() {
            assert(acols[ai] == aw[ai].column);
            assert(other_column(c)(aw[ai]));
        }
    } else if i < ws.len() {
        let nw = WidthView { column: c, width: w };
        assert(aw == ws.update(i, nw));
        assert forall|m: int| 0 <= m < i implies acols[m] != c by {
            assert(acols[m] == cols[m]);
        }
        assert(acols[i] == c);
        lemma_first_index_at(acols, c, i);
    } else {
        let nw = WidthView { column: c, width: w };
        let es2 = ws.push(nw);
        let f = choose|f: Seq<WidthView>|
            #[trigger] crate::keyed::first_per_key(
                f,
                es2,
                any_width_fn(),
                clamp_width_fn(),
                width_column_fn(),
                int_order(),
            ) && aw == f.filter(not_default_width());
        lemma_all_columns();
        assert forall|m: int| 0 <= m < ws.len() implies !(any_width_fn()(es2[m]) && clean_key(
            #[trigger] es2[m],
            clamp_width_fn(),
            width_column_fn(),
        ) == column_index(c)) by {
            assert(es2[m] == ws[m]);
            assert(cols[m] != c);
            assert(distinct_places(ws[m].column, c));
        }
        assert(es2[ws.len() as int] == nw);
        assert(clamp_width_fn()(nw) == nw);
        lemma_int_order();
        let k = lemma_first_per_key_lookup(
            f,
            es2,
            any_width_fn(),
            clamp_width_fn(),
            width_column_fn(),
            int_order(),
            ws.len() as int,
        );
        assert(f[k] == nw);
        lemma_filter_elements(f, not_default_width());
        assert(not_default_width()(f[k]));
        assert(aw.contains(nw));
        let q = choose|q: int| 0 <= q < aw.len() && aw[q] == nw;
        assert(acols[q] == c);
        assert(ai < aw.len());
        assert(acols[ai] == aw[ai].column);
        assert(f.contains(aw[ai]));
        let p = choose|p: int| 0 <= p < f.len() && f[p] == aw[ai];
        if p != k {
            assert(width_column_fn()(f[p]) != width_column_fn()(f[k]));
        }
    }
}

/// Cleaning up the column widths changes the width no column is shown with.
#[verifier::spinoff_prover]
pub proof fn lemma_normalized_widths_keep_shown(r: Seq<WidthView>, ws: Seq<WidthView>, c: ObjectColumn)
    requires
        normalized_widths(r, ws),
    ensures
        shown_column_width(r, c) == shown_column_width(ws, c),
{
    let kept = any_width_fn();
    let clean = clamp_width_fn();
    let key = width_column_fn();
    let f = choose|f: Seq<WidthView>|
        #[trigger] crate::keyed::first_per_key(f, ws, kept, clean, key, int_order()) && r
            == f.filter(not_default_width());
    lemma_all_columns();
    lemma_int_order();
    lemma_filter_elements(f, not_default_width());
    let cols = ws.map_values(|e: WidthView| e.column);
    let rcols = r.map_values(|e: WidthView| e.column);
    lemma_first_index(cols, c);
    lemma_first_index(rcols, c);
    let i = first_index(cols, c);
    let ri = first_index(rcols, c);
    if i < ws.len() {
        assert forall|m: int| 0 <= m < i implies !(kept(ws[m]) && clean_key(#[trigger] ws[m], clean, key)
            == column_index(c)) by {
            assert(cols[m] != c);
            assert(distinct_places(ws[m].column, c));
        }
        assert(cols[i] == ws[i].column);
        let k = lemma_first_per_key_lookup(f, ws, kept, clean, key, int_order(), i);
        if ri < r.len() {
            assert(rcols[ri] == r[ri].column);
            assert(f.contains(r[ri]));
            let p = choose|p: int| 0 <= p < f.len() && f[p] == r[ri];
            assert(distinct_places(r[ri].column, c));
            if p != k {
                assert(key(f[p]) != key(f[k]));
            }
        } else if not_default_width()(f[k]) {
            assert(r.contains(f[k]));
            let q = choose|q: int| 0 <= q < r.len() && r[q] == f[k];
            assert(rcols[q] == c);
        }
    } else {
        if ri < r.len() {
            assert(rcols[ri] == r[ri].column);
            assert(f.contains(r[ri]));
            let p = choose|p: int| 0 <= p < f.len() && f[p] == r[ri];
            assert(crate::keyed::has_first_kept(ws, kept, clean, key, f[p]));
            let j = choose|j: int| #[trigger] crate::keyed::first_kept(ws, kept, clean, key, key(f[p]), j) && f[p]
                == clean(ws[j]);
            assert(distinct_places(ws[j].column, c));
            assert(cols[j] == ws[j].column);
            assert(cols.contains(c));
        }
    }
}

/// Distinct columns have distinct places in display order.
spec fn distinct_places(a: ObjectColumn, b: ObjectColumn) -> bool {
    a != b ==> column_index(a) != column_index(b)
}

/// The one-element list is its own sorted set.
proof fn lemma_sorted_set_single(n: Seq<char>)
    ensures
        sorted_set(seq![n]) == seq![n],
{
    lemma_sorted_set(seq![n]);
    assert(is_sorted_set_of(seq![n], seq![n]));
}

/// The entries that clean-up leaves are kept by it and are their own clean
/// form.
proof fn lemma_normalized_entries_kept(r: Seq<NamespacesView>, es: Seq<NamespacesView>)
    requires
        normalized_entries(r, es),
    ensures
        forall|k: int| 0 <= k < r.len() ==> entry_kept_fn()(#[trigger] r[k]) && clean_entry_fn()(r[k]) == r[k],
{
    assert forall|k: int| 0 <= k < r.len() implies entry_kept_fn()(#[trigger] r[k])
        && clean_entry_fn()(r[k]) == r[k] by {
        assert(has_first_kept(es, entry_kept_fn(), clean_entry_fn(), entry_context_fn(), r[k]));
        let j = choose|j: int|
            #[trigger] first_kept(
                es,
                entry_kept_fn(),
                clean_entry_fn(),
                entry_context_fn(),
                entry_context_fn()(r[k]),
                j,
            ) && r[k] == clean_entry_fn()(es[j]);
        lemma_clean_entry_idempotent(es[j]);
    }
}

/// When every entry of `es` is kept by clean-up as it is, clean-up lists for
/// each context the namespaces that `es` lists for it.
proof fn lemma_clean_entries_lookup(r: Seq<NamespacesView>, es: Seq<NamespacesView>, c: Seq<char>)
    requires
        normalized_entries(r, es),
        forall|k: int| 0 <= k < es.len() ==> entry_kept_fn()(#[trigger] es[k]) && clean_entry_fn()(es[k]) == es[k],
    ensures
        namespaces_for_context(r, c) == namespaces_for_context(es, c),
{
    let kept = entry_kept_fn();
    let clean = clean_entry_fn();
    let key = entry_context_fn();
    let cs = entry_contexts(es);
    lemma_first_index(cs, c);
    lemma_text_order();
    let j = first_index(cs, c);
    if j < es.len() {
        assert forall|m: int| 0 <= m < j implies !(kept(es[m]) && clean_key(#[trigger] es[m], clean, key) == c) by {
            assert(cs[m] != c);
        }
        assert(cs[j] == es[j].context);
        let k = lemma_first_per_key_lookup(r, es, kept, clean, key, text_order(), j);
        assert forall|m: int| 0 <= m < k implies entry_contexts(r)[m] != c by {
            assert(key(r[m]) != key(r[k]));
        }
        lemma_first_index_at(entry_contexts(r), c, k);
    } else {
        assert forall|m: int| 0 <= m < r.len() implies entry_contexts(r)[m] != c by {
            assert(has_first_kept(es, kept, clean, key, r[m]));
            let q = choose|q: int| #[trigger] first_kept(es, kept, clean, key, key(r[m]), q) && r[m] == clean(es[q]);
            assert(cs[q] == es[q].context);
            assert(cs.contains(es[q].context));
        }
        lemma_first_index_at(entry_contexts(r), c, r.len() as int);
    }
}

/// The namespaces of a cleaned-up entry are trimmed and survive clean-up.
proof fn lemma_clean_entry_namespaces(e: NamespacesView)
    requires
        clean_entry(e) == e,
    ensures
        forall|i: int| 0 <= i < e.namespaces.len() ==> trimmed(#[trigger] e.namespaces[i]) == e.namespaces[i]
            && keeps_namespace(e.namespaces[i]),
{
    let k = kept_namespaces(e.namespaces);
    lemma_kept_namespaces_shape(e.namespaces);
    lemma_sorted_set(k);
    assert forall|i: int| 0 <= i < e.namespaces.len() implies trimmed(#[trigger] e.namespaces[i])
        == e.namespaces[i] && keeps_namespace(e.namespaces[i]) by {
        assert(sorted_set(k)[i] == e.namespaces[i]);
        assert(sorted_set(k).to_set().contains(e.namespaces[i]));
        assert(k.to_set().contains(e.namespaces[i]));
        let q = choose|q: int| 0 <= q < k.len() && k[q] == e.namespaces[i];
    }
}

/// The entries of a clean table are kept by clean-up as they are, and its
/// contexts strictly increase.
proof fn lemma_clean_table(es: Seq<NamespacesView>)
    requires
        normalized_entries(es, es),
    ensures
        forall|k: int| 0 <= k < es.len() ==> entry_kept_fn()(#[trigger] es[k]) && clean_entry_fn()(es[k]) == es[k],
        forall|a: int, b: int| 0 <= a < b < es.len() ==> text_less(#[trigger] es[a].context, #[trigger] es[b].context),
{
    lemma_normalized_entries_kept(es, es);
}

/// Adding a namespace to the list of a context that has an entry in a clean
/// table: the context's list takes the namespace, the other lists stay, and
/// the table stays clean.
#[verifier::spinoff_prover]
proof fn lemma_add_to_existing_entry(
    es: Seq<NamespacesView>,
    i: int,
    namespace: Seq<char>,
    other: Seq<char>,
)
    requires
        normalized_entries(es, es),
        0 <= i < es.len(),
        trimmed(namespace) == namespace,
        namespace.len() > 0,
        namespace != "all"@,
        other != es[i].context,
    ensures
        ({
            let es2 = es.update(
                i,
                NamespacesView { context: es[i].context, namespaces: sorted_set(es[i].namespaces.push(namespace)) },
            );
            &&& context_index(es2, es[i].context) == context_index(es, es[i].context)
            &&& namespaces_for_context(es2, other) == namespaces_for_context(es, other)
            &&& normalized_entries(es2, es2)
        }),
{
    let cs = entry_contexts(es);
    let kept = entry_kept_fn();
    let clean = clean_entry_fn();
    let key = entry_context_fn();
    lemma_text_order();
    lemma_clean_table(es);
    let ns = es[i].namespaces;
    let ss = sorted_set(ns.push(namespace));
    let e = NamespacesView { context: es[i].context, namespaces: ss };
    let es2 = es.update(i, e);
    assert(entry_contexts(es2) =~= cs);
    lemma_first_index(cs, other);
    assert(cs[i] == es[i].context);
    lemma_clean_entry_namespaces(es[i]);
    lemma_sorted_set(ns.push(namespace));
    assert forall|q: int| 0 <= q < ss.len() implies trimmed(#[trigger] ss[q]) == ss[q] && keeps_namespace(ss[q]) by {
        assert(ss.to_set().contains(ss[q]));
        assert(ns.push(namespace).to_set().contains(ss[q]));
        let t = choose|t: int| 0 <= t < ns.push(namespace).len() && ns.push(namespace)[t] == ss[q];
        if t < ns.len() {
            assert(ns.push(namespace)[t] == ns[t]);
        }
    }
    lemma_kept_namespaces_unchanged(ss);
    lemma_sorted_set(ss);
    assert(is_sorted_set_of(ss, ss));
    assert(ns.push(namespace).to_set().contains(namespace)) by {
        assert(ns.push(namespace)[ns.len() as int] == namespace);
    }
    assert(ss.len() > 0) by {
        if ss.len() == 0 {
            assert(ss.to_set() =~= Set::<Seq<char>>::empty());
        }
    }
    assert(clean(e) == e);
    assert(kept(e));
    assert forall|k: int| 0 <= k < es2.len() implies kept(#[trigger] es2[k]) && clean(es2[k]) == es2[k] by {
        if k != i {
            assert(es2[k] == es[k]);
        }
    }
    assert forall|a: int, b: int| 0 <= a < b < es2.len() implies text_order()(key(#[trigger] es2[a]), key(
        #[trigger] es2[b],
    )) by {
        assert(es2[a].context == es[a].context && es2[b].context == es[b].context);
    }
    lemma_first_per_key_of_itself(es2, kept, clean, key, text_order());
}

/// Adding the first namespace of a context without an entry in a clean
/// table: after clean-up the context lists just that namespace, the other
/// lists stay, and the table stays clean.
#[verifier::spinoff_prover]
proof fn lemma_add_new_entry(
    es: Seq<NamespacesView>,
    ls: Seq<NamespacesView>,
    context: Seq<char>,
    namespace: Seq<char>,
    other: Seq<char>,
)
    requires
        normalized_entries(es, es),
        context_index(es, context) == es.len(),
        normalized_entries(ls, es.push(NamespacesView { context, namespaces: seq![namespace] })),
        trimmed(context) == context,
        context.len() > 0,
        trimmed(namespace) == namespace,
        namespace.len() > 0,
        namespace != "all"@,
        other != context,
    ensures
        namespaces_for_context(ls, context) == seq![namespace],
        namespaces_for_context(ls, other) == namespaces_for_context(es, other),
        normalized_entries(ls, ls),
{
    let cs = entry_contexts(es);
    let kept = entry_kept_fn();
    let clean = clean_entry_fn();
    let key = entry_context_fn();
    lemma_text_order();
    lemma_clean_table(es);
    lemma_first_index(cs, other);
    let new = NamespacesView { context, namespaces: seq![namespace] };
    let es2 = es.push(new);
    assert(seq![namespace].drop_last() =~= Seq::<Seq<char>>::empty());
    assert(seq![namespace].last() == namespace);
    assert(kept_namespaces(Seq::<Seq<char>>::empty()) =~= Seq::<Seq<char>>::empty());
    assert(kept_namespaces(seq![namespace]) =~= seq![namespace]);
    lemma_sorted_set_single(namespace);
    assert(clean_entry(new) == new);
    assert forall|k: int| 0 <= k < es2.len() implies kept(#[trigger] es2[k]) && clean(es2[k]) == es2[k] by {
        if k < es.len() {
            assert(es2[k] == es[k]);
        }
    }
    lemma_clean_entries_lookup(ls, es2, context);
    lemma_clean_entries_lookup(ls, es2, other);
    let cs2 = entry_contexts(es2);
    lemma_first_index(cs, context);
    assert forall|m: int| 0 <= m < es.len() implies cs2[m] != context by {
        assert(cs2[m] == cs[m]);
    }
    assert(cs2[es.len() as int] == context);
    lemma_first_index_at(cs2, context, es.len() as int);
    let j = first_index(cs, other);
    if j < es.len() {
        assert forall|m: int| 0 <= m < j implies cs2[m] != other by {
            assert(cs2[m] == cs[m]);
        }
        assert(cs2[j] == cs[j]);
        lemma_first_index_at(cs2, other, j);
    } else {
        assert forall|m: int| 0 <= m < es2.len() implies cs2[m] != other by {
            if m < es.len() {
                assert(cs2[m] == cs[m]);
            }
        }
        lemma_first_index_at(cs2, other, es2.len() as int);
    }
    lemma_normalized_entries_kept(ls, es2);
    lemma_first_per_key_of_itself(ls, kept, clean, key, text_order());
}

/// The namespaces that survive clean-up are the trimmed forms of those of
/// `ns` that, trimmed, are neither empty nor "all".
proof fn lemma_kept_namespaces_contains(ns: Seq<Seq<char>>, x: Seq<char>)
    ensures
        kept_namespaces(ns).contains(x) <==> exists|p: int|
            0 <= p < ns.len() && keeps_namespace(#[trigger] ns[p]) && trimmed(ns[p]) == x,
    decreases ns.len(),
{
    if ns.len() > 0 {
        let d = ns.drop_last();
        let kd = kept_namespaces(d);
        lemma_kept_namespaces_contains(d, x);
        if exists|p: int| 0 <= p < d.len() && keeps_namespace(#[trigger] d[p]) && trimmed(d[p]) == x {
            let p = choose|p: int| 0 <= p < d.len() && keeps_namespace(#[trigger] d[p]) && trimmed(d[p]) == x;
            assert(ns[p] == d[p]);
        }
        if exists|p: int| 0 <= p < ns.len() && keeps_namespace(#[trigger] ns[p]) && trimmed(ns[p]) == x {
            let p = choose|p: int| 0 <= p < ns.len() && keeps_namespace(#[trigger] ns[p]) && trimmed(ns[p]) == x;
            if p < d.len() {
                assert(ns[p] == d[p]);
            } else {
                assert(kept_namespaces(ns) == kd.push(x));
                assert(kept_namespaces(ns)[kd.len() as int] == x);
            }
        }
        if keeps_namespace(ns.last()) {
            let t = kd.push(trimmed(ns.last()));
            if t.contains(x) {
                let q = choose|q: int| 0 <= q < t.len() && t[q] == x;
                if q < kd.len() {
                    assert(kd[q] == x);
                } else {
                    assert(ns[ns.len() - 1] == ns.last());
                }
            }
            if kd.contains(x) {
                let q = choose|q: int| 0 <= q < kd.len() && kd[q] == x;
                assert(t[q] == x);
            }
        }
    }
}

/// Every context and namespace that clean-up of the hand-added namespaces
/// lists comes from an entry of the old table: the context is that entry's
/// context trimmed, the namespace one of its namespaces trimmed (neither
/// empty nor "all").
#[verifier::spinoff_prover]
pub proof fn lemma_normalized_entries_trace(r: Seq<NamespacesView>, es: Seq<NamespacesView>, k: int, x: Seq<char>)
    requires
        normalized_entries(r, es),
        0 <= k < r.len(),
        r[k].namespaces.contains(x),
    ensures
        exists|j: int, p: int|
            0 <= j < es.len() && 0 <= p < es[j].namespaces.len() && r[k].context == trimmed(es[j].context)
                && x == trimmed(#[trigger] es[j].namespaces[p]) && keeps_namespace(es[j].namespaces[p]),
{
    assert(has_first_kept(es, entry_kept_fn(), clean_entry_fn(), entry_context_fn(), r[k]));
    let j = choose|j: int|
        #[trigger] first_kept(es, entry_kept_fn(), clean_entry_fn(), entry_context_fn(), entry_context_fn()(r[k]), j)
            && r[k] == clean_entry_fn()(es[j]);
    let kn = kept_namespaces(es[j].namespaces);
    lemma_sorted_set(kn);
    let q = choose|q: int| 0 <= q < r[k].namespaces.len() && r[k].namespaces[q] == x;
    assert(sorted_set(kn).to_set().contains(x));
    assert(kn.to_set().contains(x));
    lemma_kept_namespaces_contains(es[j].namespaces, x);
    let p = choose|p: int| 0 <= p < es[j].namespaces.len() && keeps_namespace(#[trigger] es[j].namespaces[p]) && trimmed(es[j].namespaces[p]) == x;
    assert(0 <= j < es.len() && 0 <= p < es[j].namespaces.len() && r[k].context == trimmed(es[j].context)
        && x == trimmed(es[j].namespaces[p]) && keeps_namespace(es[j].namespaces[p]));
}

/// When no two entries of the old table have the same context once
/// trimmed, clean-up of the hand-added namespaces keeps every pair: each
/// namespace that, trimmed, is neither empty nor "all" is listed, trimmed,
/// for its entry's context, trimmed, when that context is not empty.
#[verifier::spinoff_prover]
pub proof fn lemma_normalized_entries_keep(r: Seq<NamespacesView>, es: Seq<NamespacesView>, j: int, p: int)
    requires
        normalized_entries(r, es),
        forall|a: int, b: int|
            0 <= a < es.len() && 0 <= b < es.len() && a != b ==> trimmed(#[trigger] es[a].context) != trimmed(
                #[trigger] es[b].context,
            ),
        0 <= j < es.len(),
        0 <= p < es[j].namespaces.len(),
        trimmed(es[j].context).len() > 0,
        keeps_namespace(es[j].namespaces[p]),
    ensures
        namespaces_for_context(r, trimmed(es[j].context)).contains(trimmed(es[j].namespaces[p])),
{
    let kept = entry_kept_fn();
    let clean = clean_entry_fn();
    let key = entry_context_fn();
    let c = trimmed(es[j].context);
    let x = trimmed(es[j].namespaces[p]);
    let kn = kept_namespaces(es[j].namespaces);
    lemma_kept_namespaces_contains(es[j].namespaces, x);
    lemma_sorted_set(kn);
    assert(kn.to_set().contains(x));
    assert(sorted_set(kn).to_set().contains(x));
    assert(sorted_set(kn).len() > 0);
    assert(kept(es[j]));
    assert forall|m: int| 0 <= m < j implies !(kept(es[m]) && clean_key(#[trigger] es[m], clean, key) == c) by {
        assert(trimmed(es[m].context) != trimmed(es[j].context));
    }
    lemma_text_order();
    let k = lemma_first_per_key_lookup(r, es, kept, clean, key, text_order(), j);
    assert forall|m: int| 0 <= m < k implies entry_contexts(r)[m] != c by {
        assert(key(r[m]) != key(r[k]));
    }
    lemma_first_index_at(entry_contexts(r), c, k);
}

/// Adding a hand-added namespace to a project whose table is clean (as
/// clean-up leaves it), with a trimmed context and a trimmed namespace other
/// than "all": refused, changing nothing, exactly when either is empty or
/// the namespace is already listed for the context; otherwise the
/// context's list becomes its old list with the namespace, sorted without
/// duplicates. Every other context's list stays as it was, and the table
/// stays clean.
pub proof fn lemma_add_custom_namespace_on_clean_table(
    before: ProjectView,
    after: ProjectView,
    context: Seq<char>,
    namespace: Seq<char>,
    r: bool,
    other: Seq<char>,
)
    requires
        adds_custom_namespace(before, after, context, namespace, r),
        normalized_entries(before.custom, before.custom),
        trimmed(context) == context,
        trimmed(namespace) == namespace,
        namespace != "all"@,
        other != context,
    ensures
        r == (context.len() > 0 && namespace.len() > 0 && !namespaces_for_context(before.custom, context).contains(
            namespace,
        )),
        !r ==> after == before,
        r ==> namespaces_for_context(after.custom, context) == sorted_set(
            namespaces_for_context(before.custom, context).push(namespace),
        ),
        namespaces_for_context(after.custom, other) == namespaces_for_context(before.custom, other),
        normalized_entries(after.custom, after.custom),
{
    let es = before.custom;
    lemma_first_index(entry_contexts(es), context);
    let i = context_index(es, context);
    if !r {
        assert(after == before);
    } else if i < es.len() {
        assert(entry_contexts(es)[i] == es[i].context);
        lemma_add_to_existing_entry(es, i, namespace, other);
        let es2 = after.custom;
        assert(context_index(es2, context) == i);
        assert(es2[i].namespaces == sorted_set(es[i].namespaces.push(namespace)));
    } else {
        lemma_add_new_entry(es, after.custom, context, namespace, other);
        assert(Seq::<Seq<char>>::empty().push(namespace) =~= seq![namespace]);
        lemma_sorted_set_single(namespace);
    }
}

/// A namespace added for a context is then listed for it. When the context
/// had no entry yet, the new entry goes through clean-up, so this holds
/// when context and namespace come through clean-up unchanged (trimmed, the
/// namespace neither blank nor "all") and no earlier entry that clean-up
/// keeps has that context once trimmed.
pub proof fn lemma_added_namespace_is_listed(
    before: ProjectView,
    after: ProjectView,
    context: Seq<char>,
    namespace: Seq<char>,
    r: bool,
)
    requires
        adds_custom_namespace(before, after, context, namespace, r),
        context.len() > 0,
        namespace.len() > 0,
        context_index(before.custom, context) < before.custom.len() || ({
            &&& trimmed(context) == context
            &&& trimmed(namespace) == namespace
            &&& keeps_namespace(namespace)
            &&& forall|k: int|
                0 <= k < before.custom.len() ==> !(entry_kept(#[trigger] before.custom[k])
                    && trimmed(before.custom[k].context) == context)
        }),
    ensures
        namespaces_for_context(after.custom, context).contains(namespace),
{
    let es = before.custom;
    let cs = entry_contexts(es);
    lemma_first_index(cs, context);
    let i = context_index(es, context);
    if i < es.len() {
        if r {
            let e = NamespacesView {
                context: es[i].context,
                namespaces: sorted_set(es[i].namespaces.push(namespace)),
            };
            let es2 = es.update(i, e);
            assert forall|m: int| 0 <= m < i implies entry_contexts(es2)[m] != context by {
                assert(entry_contexts(es2)[m] == cs[m]);
            }
            assert(entry_contexts(es2)[i] == context);
            lemma_first_index_at(entry_contexts(es2), context, i);
            lemma_sorted_set(es[i].namespaces.push(namespace));
            assert(es[i].namespaces.push(namespace).to_set().contains(namespace)) by {
                assert(es[i].namespaces.push(namespace)[es[i].namespaces.len() as int] == namespace);
            }
        }
    } else {
        let new = NamespacesView { context, namespaces: seq![namespace] };
        let es2 = es.push(new);
        assert(seq![namespace].drop_last() =~= Seq::<Seq<char>>::empty());
        assert(seq![namespace].last() == namespace);
        assert(kept_namespaces(Seq::<Seq<char>>::empty()) =~= Seq::<Seq<char>>::empty());
        assert(kept_namespaces(seq![namespace]) =~= seq![namespace]);
        lemma_sorted_set_single(namespace);
        assert(clean_entry(new) == new);
        let kept = entry_kept_fn();
        let clean = clean_entry_fn();
        let key = entry_context_fn();
        assert forall|m: int| 0 <= m < es.len() implies !(kept(es2[m]) && clean_key(
            #[trigger] es2[m],
            clean,
            key,
        ) == context) by {
            assert(es2[m] == es[m]);
        }
        assert(es2[es.len() as int] == new);
        assert(first_kept(es2, kept, clean, key, clean_key(es2[es.len() as int], clean, key), es.len() as int));
        lemma_text_order();
        let k = lemma_first_per_key_lookup(after.custom, es2, kept, clean, key, text_order(), es.len() as int);
        let a = after.custom;
        assert forall|m: int| 0 <= m < k implies entry_contexts(a)[m] != context by {
            assert(key(a[m]) != key(a[k]));
        }
        lemma_first_index_at(entry_contexts(a), context, k);
        assert(a[k].namespaces[0] == namespace);
    }
}

/// Adding a namespace that a context already lists is refused and changes
/// nothing.
pub proof fn lemma_add_listed_namespace_again(
    before: ProjectView,
    after: ProjectView,
    context: Seq<char>,
    namespace: Seq<char>,
    r: bool,
)
    requires
        adds_custom_namespace(before, after, context, namespace, r),
        namespaces_for_context(before.custom, context).contains(namespace),
    ensures
        !r,
        after.custom == before.custom,
{
}

/// A namespace removed for a context is no longer listed for it, and, when
/// the context had an entry, no entry is left without namespaces; this
/// holds when each context has one entry, as clean-up leaves the table.
pub proof fn lemma_removed_namespace_is_gone(
    before: ProjectView,
    after: ProjectView,
    context: Seq<char>,
    namespace: Seq<char>,
    r: bool,
)
    requires
        removes_custom_namespace(before, after, context, namespace, r),
        entry_contexts(before.custom).no_duplicates(),
    ensures
        !namespaces_for_context(after.custom, context).contains(namespace),
        context_index(before.custom, context) < before.custom.len() ==> forall|k: int|
            0 <= k < after.custom.len() ==> (#[trigger] after.custom[k]).namespaces.len() > 0,
{
    let es = before.custom;
    let cs = entry_contexts(es);
    lemma_first_index(cs, context);
    let i = context_index(es, context);
    if i < es.len() {
        let e = NamespacesView {
            context: es[i].context,
            namespaces: es[i].namespaces.filter(differs_from(namespace)),
        };
        let es1 = es.update(i, e);
        let a = after.custom;
        lemma_filter_elements(es1, has_namespaces());
        let ac = entry_contexts(a);
        lemma_first_index(ac, context);
        let p = first_index(ac, context);
        if p < a.len() {
            assert(ac[p] == a[p].context);
            assert(es1.contains(a[p]));
            let q = choose|q: int| 0 <= q < es1.len() && es1[q] == a[p];
            if q != i {
                assert(es1[q] == es[q]);
                assert(cs[q] == context && cs[i] == context);
            }
            lemma_filter_elements(es[i].namespaces, differs_from(namespace));
            if a[p].namespaces.contains(namespace) {
                let m = choose|m: int| 0 <= m < a[p].namespaces.len() && a[p].namespaces[m] == namespace;
                assert(differs_from(namespace)(es[i].namespaces.filter(differs_from(namespace))[m]));
            }
        }
        assert forall|k: int| 0 <= k < a.len() implies (#[trigger] a[k]).namespaces.len() > 0 by {
            assert(has_namespaces()(a[k]));
        }
    }
}

/// After a rename, the context lists the new name (trimmed) and no longer
/// the old one; this holds when the context's list has no duplicates, as
/// clean-up leaves it.
pub proof fn lemma_renamed_namespace_is_listed(
    before: ProjectView,
    after: ProjectView,
    context: Seq<char>,
    old_name: Seq<char>,
    new_name: Seq<char>,
)
    requires
        renames_custom_namespace(before, after, context, old_name, new_name, true),
        namespaces_for_context(before.custom, context).no_duplicates(),
    ensures
        namespaces_for_context(after.custom, context).contains(trimmed(new_name)),
        !namespaces_for_context(after.custom, context).contains(old_name),
{
    let es = before.custom;
    let cs = entry_contexts(es);
    lemma_first_index(cs, context);
    let i = context_index(es, context);
    let ns = es[i].namespaces;
    lemma_first_index(ns, old_name);
    let j = first_index(ns, old_name);
    let nt = trimmed(new_name);
    let u = ns.update(j, nt);
    let e = NamespacesView { context: es[i].context, namespaces: sorted_set(u) };
    let es2 = es.update(i, e);
    assert forall|m: int| 0 <= m < i implies entry_contexts(es2)[m] != context by {
        assert(entry_contexts(es2)[m] == cs[m]);
    }
    assert(entry_contexts(es2)[i] == context);
    lemma_first_index_at(entry_contexts(es2), context, i);
    lemma_sorted_set(u);
    assert(u.to_set().contains(nt)) by {
        assert(u[j] == nt);
    }
    if sorted_set(u).contains(old_name) {
        assert(sorted_set(u).to_set().contains(old_name));
        assert(u.to_set().contains(old_name));
        let m = choose|m: int| 0 <= m < u.len() && u[m] == old_name;
        assert(m != j);
        assert(ns[m] == old_name && ns[j] == old_name);
    }
}

/// A filter that lets every element through keeps the sequence.
proof fn lemma_filter_all_pass<A>(s: Seq<A>, p: spec_fn(A) -> bool)
    requires
        forall|i: int| 0 <= i < s.len() ==> p(#[trigger] s[i]),
    ensures
        s.filter(p) == s,
    decreases s.len(),
{
    reveal(Seq::filter);
    if s.len() > 0 {
        lemma_filter_all_pass(s.drop_last(), p);
        assert(s.drop_last().push(s.last()) =~= s);
    }
}

/// A filter that stops some element shortens the sequence.
proof fn lemma_filter_shorter<A>(s: Seq<A>, p: spec_fn(A) -> bool, i: int)
    requires
        0 <= i < s.len(),
        !p(s[i]),
    ensures
        s.filter(p).len() < s.len(),
    decreases s.len(),
{
    reveal(Seq::filter);
    lemma_filter_elements(s.drop_last(), p);
    if i < s.len() - 1 {
        assert(s.drop_last()[i] == s[i]);
        lemma_filter_shorter(s.drop_last(), p, i);
    }
}

/// Dropping repeats keeps which elements occur.
proof fn lemma_dedup_contains(s: Seq<FavoriteView>, x: FavoriteView)
    ensures
        dedup_adjacent(s).contains(x) == s.contains(x),
    decreases s.len(),
{
    if s.len() > 0 {
        let d = dedup_adjacent(s.drop_last());
        lemma_dedup_contains(s.drop_last(), x);
        lemma_dedup_contains(s.drop_last(), s.last());
        assert(s.drop_last().push(s.last()) =~= s);
        if d.len() > 0 && d.last() == s.last() {
            assert(d.contains(d.last()));
            if s.contains(x) {
                let k = choose|k: int| 0 <= k < s.len() && s[k] == x;
                if k < s.len() - 1 {
                    assert(s.drop_last()[k] == x);
                }
            }
        } else {
            if d.push(s.last()).contains(x) {
                let k = choose|k: int| 0 <= k < d.push(s.last()).len() && d.push(s.last())[k] == x;
                if k == d.len() {
                    assert(s[s.len() - 1] == x);
                } else {
                    assert(d[k] == x);
                    let q = choose|q: int| 0 <= q < s.drop_last().len() && s.drop_last()[q] == x;
                    assert(s[q] == x);
                }
            }
            if s.contains(x) {
                let k = choose|k: int| 0 <= k < s.len() && s[k] == x;
                if k < s.len() - 1 {
                    assert(s.drop_last()[k] == x);
                    let q = choose|q: int| 0 <= q < d.len() && d[q] == x;
                    assert(d.push(s.last())[q] == x);
                } else {
                    assert(d.push(s.last())[d.len() as int] == x);
                }
            }
        }
    }
}

/// Clean-up leaves favourites that are already clean and kept as they are.
proof fn lemma_cleaned_favorites_unchanged(s: Seq<FavoriteView>)
    requires
        forall|i: int| 0 <= i < s.len() ==> clean_favorite(#[trigger] s[i]) == s[i] && favorite_kept(s[i]),
    ensures
        cleaned_favorites(s) == s,
    decreases s.len(),
{
    if s.len() > 0 {
        assert(clean_favorite(s[s.len() - 1]) == s[s.len() - 1]);
        lemma_cleaned_favorites_unchanged(s.drop_last());
        assert(s.drop_last().push(s.last()) =~= s);
    }
}

/// Which favourites occur after clean-up, sorting and dropping repeats:
/// those that occur in the cleaned list.
proof fn lemma_normalized_contains(s: Seq<FavoriteView>, x: FavoriteView)
    ensures
        normalized_favorites(s).contains(x) == cleaned_favorites(s).contains(x),
{
    broadcast use vstd::seq_lib::to_multiset_contains;

    let c = cleaned_favorites(s);
    let t = stable_sort_by(c, favorite_order());
    lemma_stable_sort_permutes(c, favorite_order());
    lemma_dedup_contains(t, x);
    assert(t.contains(x) == (t.to_multiset().count(x) > 0));
    assert(c.contains(x) == (c.to_multiset().count(x) > 0));
}

/// Toggling an object that is not pinned pins it. The pinned copy goes
/// through clean-up, so this holds when the object's context, group, kind,
/// namespace and name are trimmed and its context, kind, name and namespace
/// (when it has one) are not blank.
pub proof fn lemma_toggle_pins(before: Seq<FavoriteView>, t: TargetView)
    requires
        forall|k: int| 0 <= k < before.len() ==> !favorite_matches(#[trigger] before[k], t),
        trimmed(t.context) == t.context,
        trimmed(t.resource.group) == t.resource.group,
        trimmed(t.resource.kind) == t.resource.kind,
        trimmed(t.name) == t.name,
        t.context.len() > 0,
        t.resource.kind.len() > 0,
        t.name.len() > 0,
        match t.namespace {
            Some(n) => trimmed(n) == n && n.len() > 0,
            None => true,
        },
    ensures
        exists|k: int|
            0 <= k < toggled_favorites(before, t).len() && favorite_matches(
                #[trigger] toggled_favorites(before, t)[k],
                t,
            ),
{
    let f = favorite_of(t);
    assert forall|i: int| 0 <= i < before.len() implies differs_from_favorite(f)(
        #[trigger] before[i],
    ) by {
        if before[i] == f {
            assert(favorite_matches(before[i], t));
        }
    }
    lemma_filter_all_pass(before, differs_from_favorite(f));
    let s2 = before.push(f);
    let cf = clean_favorite(f);
    assert(favorite_kept(cf));
    assert(favorite_matches(cf, t));
    assert(s2.drop_last() =~= before);
    assert(cleaned_favorites(s2) == cleaned_favorites(before).push(cf));
    assert(cleaned_favorites(s2).contains(cf)) by {
        assert(cleaned_favorites(s2)[cleaned_favorites(before).len() as int] == cf);
    }
    lemma_normalized_contains(s2, cf);
    let r = normalized_favorites(s2);
    assert(r == toggled_favorites(before, t));
    let k = choose|k: int| 0 <= k < r.len() && r[k] == cf;
    assert(favorite_matches(r[k], t));
}

/// Toggling a pinned object unpins it, in a list of favourites that
/// clean-up leaves as it is, when every favourite that names the object is
/// the one toggling would add (with the same versions and plural).
pub proof fn lemma_toggle_unpins(before: Seq<FavoriteView>, t: TargetView)
    requires
        exists|k: int| 0 <= k < before.len() && favorite_matches(#[trigger] before[k], t),
        forall|k: int|
            0 <= k < before.len() ==> clean_favorite(#[trigger] before[k]) == before[k]
                && favorite_kept(before[k]),
        forall|k: int|
            0 <= k < before.len() && favorite_matches(#[trigger] before[k], t) ==> before[k]
                == favorite_of(t),
    ensures
        forall|k: int|
            0 <= k < toggled_favorites(before, t).len() ==> !favorite_matches(
                #[trigger] toggled_favorites(before, t)[k],
                t,
            ),
{
    let f = favorite_of(t);
    let k0 = choose|k: int| 0 <= k < before.len() && favorite_matches(#[trigger] before[k], t);
    assert(before[k0] == f);
    lemma_filter_shorter(before, differs_from_favorite(f), k0);
    let rest = before.filter(differs_from_favorite(f));
    lemma_filter_elements(before, differs_from_favorite(f));
    assert forall|i: int| 0 <= i < rest.len() implies clean_favorite(#[trigger] rest[i]) == rest[i]
        && favorite_kept(rest[i]) by {
        assert(before.contains(rest[i]));
    }
    lemma_cleaned_favorites_unchanged(rest);
    let r = normalized_favorites(rest);
    assert(r == toggled_favorites(before, t));
    assert forall|k: int| 0 <= k < r.len() implies !favorite_matches(#[trigger] r[k], t) by {
        lemma_normalized_contains(rest, r[k]);
        assert(r.contains(r[k]));
        assert(rest.contains(r[k]));
        let q = choose|q: int| 0 <= q < rest.len() && rest[q] == r[k];
        assert(differs_from_favorite(f)(rest[q]));
        assert(before.contains(rest[q]));
    }
}

/// A cleaned favourite is its own clean form.
proof fn lemma_clean_favorite_idempotent(f: FavoriteView)
    ensures
        clean_favorite(clean_favorite(f)) == clean_favorite(f),
{
    lemma_trimmed_idempotent(f.context);
    lemma_trimmed_idempotent(f.group);
    lemma_trimmed_idempotent(f.version);
    lemma_trimmed_idempotent(f.api_version);
    lemma_trimmed_idempotent(f.kind);
    lemma_trimmed_idempotent(f.plural);
    lemma_trimmed_idempotent(f.name);
    match f.namespace {
        Some(n) => lemma_trimmed_idempotent(n),
        None => {},
    }
}

proof fn lemma_cleaned_favorites_clean(s: Seq<FavoriteView>)
    ensures
        forall|i: int|
            0 <= i < cleaned_favorites(s).len() ==> clean_favorite(#[trigger] cleaned_favorites(s)[i])
                == cleaned_favorites(s)[i] && favorite_kept(cleaned_favorites(s)[i]),
    decreases s.len(),
{
    if s.len() > 0 {
        lemma_cleaned_favorites_clean(s.drop_last());
        lemma_clean_favorite_idempotent(s.last());
    }
}

/// Every favourite left by clean-up is clean (its fields trimmed, no blank
/// namespace) and kept (it has a context, a kind and a name), so a second
/// clean-up step leaves it as it is.
pub proof fn lemma_normalized_favorites_clean(s: Seq<FavoriteView>)
    ensures
        forall|i: int|
            0 <= i < normalized_favorites(s).len() ==> clean_favorite(
                #[trigger] normalized_favorites(s)[i],
            ) == normalized_favorites(s)[i] && favorite_kept(normalized_favorites(s)[i]),
{
    let r = normalized_favorites(s);
    let c = cleaned_favorites(s);
    lemma_cleaned_favorites_clean(s);
    assert forall|i: int| 0 <= i < r.len() implies clean_favorite(#[trigger] r[i]) == r[i]
        && favorite_kept(r[i]) by {
        assert(r.contains(r[i]));
        lemma_normalized_contains(s, r[i]);
        let q = choose|q: int| 0 <= q < c.len() && c[q] == r[i];
    }
}

/// Clean-up leaves one remembered namespace per context, each context and
/// namespace trimmed and not blank.
pub proof fn lemma_normalized_selections_clean(r: Seq<SelectionView>, es: Seq<SelectionView>)
    requires
        normalized_selections(r, es),
    ensures
        selection_contexts(r).no_duplicates(),
        forall|k: int|
            0 <= k < r.len() ==> trimmed((#[trigger] r[k]).context) == r[k].context
                && trimmed(r[k].namespace) == r[k].namespace
                && r[k].context.len() > 0 && r[k].namespace.len() > 0,
{
    let cs = selection_contexts(r);
    assert forall|i: int, j: int| 0 <= i < cs.len() && 0 <= j < cs.len() && i != j implies cs[i]
        != cs[j] by {
        if i < j {
            assert(text_less(r[i].context, r[j].context));
            lemma_text_less_irreflexive(r[i].context);
        } else {
            assert(text_less(r[j].context, r[i].context));
            lemma_text_less_irreflexive(r[j].context);
        }
    }
    assert forall|k: int| 0 <= k < r.len() implies trimmed((#[trigger] r[k]).context) == r[k].context
        && trimmed(r[k].namespace) == r[k].namespace
        && r[k].context.len() > 0 && r[k].namespace.len() > 0 by {
        assert(has_first_kept(es, selection_kept_fn(), clean_selection_fn(), selection_context_fn(), r[k]));
        let j = choose|j: int|
            #[trigger] first_kept(
                es,
                selection_kept_fn(),
                clean_selection_fn(),
                selection_context_fn(),
                selection_context_fn()(r[k]),
                j,
            ) && r[k] == clean_selection_fn()(es[j]);
        lemma_trimmed_idempotent(es[j].context);
        lemma_trimmed_idempotent(es[j].namespace);
    }
}

/// Clean-up leaves one entry of hand-added namespaces per context, the
/// context trimmed and not blank, the namespaces sorted without duplicates.
pub proof fn lemma_normalized_entries_clean(r: Seq<NamespacesView>, es: Seq<NamespacesView>)
    requires
        normalized_entries(r, es),
    ensures
        entry_contexts(r).no_duplicates(),
        forall|k: int|
            0 <= k < r.len() ==> trimmed((#[trigger] r[k]).context) == r[k].context
                && r[k].context.len() > 0 && r[k].namespaces.len() > 0
                && strictly_sorted(r[k].namespaces) && r[k].namespaces.no_duplicates(),
{
    let cs = entry_contexts(r);
    assert forall|i: int, j: int| 0 <= i < cs.len() && 0 <= j < cs.len() && i != j implies cs[i]
        != cs[j] by {
        if i < j {
            assert(text_less(r[i].context, r[j].context));
            lemma_text_less_irreflexive(r[i].context);
        } else {
            assert(text_less(r[j].context, r[i].context));
            lemma_text_less_irreflexive(r[j].context);
        }
    }
    assert forall|k: int| 0 <= k < r.len() implies trimmed((#[trigger] r[k]).context) == r[k].context
        && r[k].context.len() > 0 && r[k].namespaces.len() > 0
        && strictly_sorted(r[k].namespaces) && r[k].namespaces.no_duplicates() by {
        assert(has_first_kept(es, entry_kept_fn(), clean_entry_fn(), entry_context_fn(), r[k]));
        let j = choose|j: int|
            #[trigger] first_kept(
                es,
                entry_kept_fn(),
                clean_entry_fn(),
                entry_context_fn(),
                entry_context_fn()(r[k]),
                j,
            ) && r[k] == clean_entry_fn()(es[j]);
        lemma_trimmed_idempotent(es[j].context);
        lemma_sorted_set(kept_namespaces(es[j].namespaces));
        lemma_strictly_sorted_no_duplicates(r[k].namespaces);
    }
}

/// A loaded store meets what the laws above ask of a store: remembered
/// contexts trimmed and distinct, favourites clean, and in every project one
/// trimmed entry per context with namespaces free of duplicates.
pub proof fn lemma_loaded_store_is_clean(r: StoreView, s: StoreView, contexts: Seq<crate::store::ContextInfo>)
    requires
        loaded_store(r, s, contexts),
    ensures
        selection_contexts(r.last_namespaces).no_duplicates(),
        forall|k: int|
            0 <= k < r.last_namespaces.len() ==> trimmed(
                (#[trigger] r.last_namespaces[k]).context,
            ) == r.last_namespaces[k].context,
        forall|i: int|
            0 <= i < r.favorites.len() ==> clean_favorite(#[trigger] r.favorites[i]) == r.favorites[i]
                && favorite_kept(r.favorites[i]),
        forall|p: int|
            0 <= p < r.projects.len() ==> entry_contexts((#[trigger] r.projects[p]).custom).no_duplicates()
                && forall|k: int|
                0 <= k < r.projects[p].custom.len() ==> (#[trigger] r.projects[p].custom[k]).namespaces.no_duplicates(),
{
    lemma_normalized_selections_clean(r.last_namespaces, crate::store::live_selections(s.last_namespaces, contexts));
    lemma_normalized_favorites_clean(s.favorites);
    assert forall|p: int| 0 <= p < r.projects.len() implies entry_contexts((#[trigger] r.projects[p]).custom).no_duplicates()
        && forall|k: int|
        0 <= k < r.projects[p].custom.len() ==> (#[trigger] r.projects[p].custom[k]).namespaces.no_duplicates() by {
        assert(project_normalized(r.projects[p], s.projects[p], contexts));
        lemma_normalized_entries_clean(r.projects[p].custom, crate::store::pruned_custom(s.projects[p], contexts));
    }
}

proof fn lemma_cleaned_contexts_contains(cs: Seq<Seq<char>>, k: int)
    requires
        0 <= k < cs.len(),
        trimmed(cs[k]).len() > 0,
    ensures
        cleaned_contexts(cs).contains(trimmed(cs[k])),
    decreases cs.len(),
{
    if k < cs.len() - 1 {
        assert(cs.drop_last()[k] == cs[k]);
        lemma_cleaned_contexts_contains(cs.drop_last(), k);
        let c = cleaned_contexts(cs.drop_last());
        let q = choose|q: int| 0 <= q < c.len() && c[q] == trimmed(cs[k]);
        if trimmed(cs.last()).len() > 0 {
            assert(c.push(trimmed(cs.last()))[q] == trimmed(cs[k]));
        }
    } else {
        let c = cleaned_contexts(cs.drop_last());
        assert(c.push(trimmed(cs.last()))[c.len() as int] == trimmed(cs[k]));
    }
}

proof fn lemma_selected_index_bounds(s: StoreView)
    ensures
        0 <= selected_index(s) <= s.projects.len(),
{
    match s.selected {
        Some(n) => lemma_first_index(project_names(s.projects), n),
        None => {},
    }
}

/// Updating a project but not its name keeps which project is selected.
proof fn lemma_selection_kept(before: StoreView, after: StoreView, i: int)
    requires
        0 <= i < before.projects.len(),
        after.projects.len() == before.projects.len(),
        after.projects[i].name == before.projects[i].name,
        forall|k: int| 0 <= k < before.projects.len() && k != i ==> after.projects[k] == before.projects[k],
        after.selected == before.selected,
    ensures
        selected_index(after) == selected_index(before),
{
    assert(project_names(after.projects) =~= project_names(before.projects));
}

/// The contexts added to the selected project are then listed by it,
/// trimmed (blank ones are not added), and the same project stays selected.
pub proof fn lemma_added_contexts_are_listed(before: StoreView, after: StoreView, contexts: Seq<Seq<char>>)
    requires
        adds_contexts(before, after, contexts),
        selected_index(before) < before.projects.len(),
    ensures
        selected_index(after) == selected_index(before),
        forall|k: int|
            0 <= k < contexts.len() && trimmed(#[trigger] contexts[k]).len() > 0
                ==> after.projects[selected_index(before)].contexts.contains(trimmed(contexts[k])),
{
    let i = selected_index(before);
    lemma_selected_index_bounds(before);
    lemma_selection_kept(before, after, i);
    let all = before.projects[i].contexts + cleaned_contexts(contexts);
    lemma_sorted_set(all);
    assert forall|k: int| 0 <= k < contexts.len() && trimmed(#[trigger] contexts[k]).len() > 0
        implies after.projects[i].contexts.contains(trimmed(contexts[k])) by {
        lemma_cleaned_contexts_contains(contexts, k);
        let c = cleaned_contexts(contexts);
        let q = choose|q: int| 0 <= q < c.len() && c[q] == trimmed(contexts[k]);
        assert(all[before.projects[i].contexts.len() + q] == trimmed(contexts[k]));
        assert(all.to_set().contains(trimmed(contexts[k])));
        assert(sorted_set(all).to_set().contains(trimmed(contexts[k])));
    }
}

/// A context taken out of the selected project is no longer listed by it
/// and has no hand-added namespaces left there; the same project stays
/// selected.
pub proof fn lemma_removed_context_is_gone(before: StoreView, after: StoreView, context: Seq<char>)
    requires
        removes_context(before, after, context),
        selected_index(before) < before.projects.len(),
    ensures
        selected_index(after) == selected_index(before),
        !after.projects[selected_index(before)].contexts.contains(context),
        namespaces_for_context(after.projects[selected_index(before)].custom, context).len() == 0,
{
    let i = selected_index(before);
    lemma_selected_index_bounds(before);
    lemma_selection_kept(before, after, i);
    let p = after.projects[i];
    lemma_filter_elements(before.projects[i].contexts, other_context(context));
    lemma_filter_elements(before.projects[i].custom, entry_not_in(context));
    if p.contexts.contains(context) {
        let q = choose|q: int| 0 <= q < p.contexts.len() && p.contexts[q] == context;
        assert(other_context(context)(p.contexts[q]));
    }
    let cs = entry_contexts(p.custom);
    lemma_first_index(cs, context);
    let j = first_index(cs, context);
    if j < p.custom.len() {
        assert(cs[j] == p.custom[j].context);
        assert(entry_not_in(context)(p.custom[j]));
    }
}

proof fn lemma_optional_less(a: Option<Seq<char>>, b: Option<Seq<char>>, c: Option<Seq<char>>)
    ensures
        !optional_less(a, a),
        optional_less(a, b) && optional_less(b, c) ==> optional_less(a, c),
{
    match a {
        Some(x) => lemma_text_less_irreflexive(x),
        None => {},
    }
    match (a, b, c) {
        (Some(x), Some(y), Some(z)) => {
            if text_less(x, y) && text_less(y, z) {
                lemma_text_less_transitive(x, y, z);
            }
        },
        _ => {},
    }
}

/// The order of favourites is a strict order.
proof fn lemma_favorite_order()
    ensures
        strict_partial_order(favorite_order()),
{
    assert forall|a: FavoriteView| !(#[trigger] favorite_order()(a, a)) by {
        lemma_text_less_irreflexive(a.context);
        lemma_text_less_irreflexive(a.group);
        lemma_text_less_irreflexive(a.kind);
        lemma_text_less_irreflexive(a.name);
        lemma_optional_less(a.namespace, a.namespace, a.namespace);
    }
    assert forall|a: FavoriteView, b: FavoriteView, c: FavoriteView|
        #[trigger] favorite_order()(a, b) && #[trigger] favorite_order()(b, c) implies favorite_order()(a, c) by {
        if text_less(a.context, b.context) && text_less(b.context, c.context) {
            lemma_text_less_transitive(a.context, b.context, c.context);
        }
        if text_less(a.group, b.group) && text_less(b.group, c.group) {
            lemma_text_less_transitive(a.group, b.group, c.group);
        }
        if text_less(a.kind, b.kind) && text_less(b.kind, c.kind) {
            lemma_text_less_transitive(a.kind, b.kind, c.kind);
        }
        if text_less(a.name, b.name) && text_less(b.name, c.name) {
            lemma_text_less_transitive(a.name, b.name, c.name);
        }
        lemma_optional_less(a.namespace, b.namespace, c.namespace);
    }
}

/// A stable sort leaves a sorted sequence as it is.
proof fn lemma_stable_sort_of_sorted<A>(s: Seq<A>, less: spec_fn(A, A) -> bool)
    requires
        sorted_by(s, less),
    ensures
        stable_sort_by(s, less) == s,
    decreases s.len(),
{
    if s.len() > 0 {
        let d = s.drop_last();
        assert(sorted_by(d, less)) by {
            assert forall|i: int, j: int| 0 <= i < j < d.len() implies !less(#[trigger] d[j], #[trigger] d[i]) by {
                assert(d[i] == s[i] && d[j] == s[j]);
            }
        }
        lemma_stable_sort_of_sorted(d, less);
        assert forall|k: int| 0 <= k < d.len() implies !sorts_after_by(less, s.last())(#[trigger] d[k]) by {
            assert(d[k] == s[k]);
            assert(!less(s[s.len() - 1], s[k]));
        }
        lemma_first_where_at(d, sorts_after_by(less, s.last()), d.len() as int);
        assert(d.insert(d.len() as int, s.last()) =~= s);
    }
}

/// No favourite follows an equal one.
pub open spec fn adjacent_distinct(s: Seq<FavoriteView>) -> bool {
    forall|i: int| 0 <= i < s.len() - 1 ==> #[trigger] s[i] != s[i + 1]
}

proof fn lemma_dedup_shape(s: Seq<FavoriteView>)
    ensures
        adjacent_distinct(dedup_adjacent(s)),
        dedup_adjacent(s).len() > 0 ==> s.len() > 0 && dedup_adjacent(s).last() == s.last(),
        sorted_by(s, favorite_order()) ==> sorted_by(dedup_adjacent(s), favorite_order()),
    decreases s.len(),
{
    if s.len() > 0 {
        let d = dedup_adjacent(s.drop_last());
        let x = s.last();
        lemma_dedup_shape(s.drop_last());
        if sorted_by(s, favorite_order()) {
            assert(sorted_by(s.drop_last(), favorite_order())) by {
                let t = s.drop_last();
                assert forall|i: int, j: int| 0 <= i < j < t.len() implies !favorite_order()(#[trigger] t[j], #[trigger] t[i]) by {
                    assert(t[i] == s[i] && t[j] == s[j]);
                }
            }
        }
        if !(d.len() > 0 && d.last() == x) {
            let r = d.push(x);
            assert forall|i: int| 0 <= i < r.len() - 1 implies #[trigger] r[i] != r[i + 1] by {
                if i < d.len() - 1 {
                    assert(r[i] == d[i] && r[i + 1] == d[i + 1]);
                } else {
                    assert(r[i] == d.last());
                }
            }
            if sorted_by(s, favorite_order()) {
                assert forall|i: int, j: int| 0 <= i < j < r.len() implies !favorite_order()(#[trigger] r[j], #[trigger] r[i]) by {
                    if j < d.len() {
                        assert(r[i] == d[i] && r[j] == d[j]);
                    } else {
                        assert(r[i] == d[i]);
                        lemma_dedup_contains(s.drop_last(), d[i]);
                        assert(d.contains(d[i]));
                        let k = choose|k: int| 0 <= k < s.drop_last().len() && s.drop_last()[k] == d[i];
                        assert(s[k] == d[i]);
                        assert(!favorite_order()(s[s.len() - 1], s[k]));
                    }
                }
            }
        }
    }
}

/// Dropping repeats leaves a sequence without adjacent repeats as it is.
proof fn lemma_dedup_of_distinct(s: Seq<FavoriteView>)
    requires
        adjacent_distinct(s),
    ensures
        dedup_adjacent(s) == s,
    decreases s.len(),
{
    if s.len() > 0 {
        let t = s.drop_last();
        assert(adjacent_distinct(t)) by {
            assert forall|i: int| 0 <= i < t.len() - 1 implies #[trigger] t[i] != t[i + 1] by {
                assert(t[i] == s[i] && t[i + 1] == s[i + 1]);
            }
        }
        lemma_dedup_of_distinct(t);
        if t.len() > 0 {
            assert(s[t.len() - 1] != s[t.len() as int]);
        }
        assert(t.push(s.last()) =~= s);
    }
}

/// The cleaned list holds the clean forms of the favourites that, once
/// cleaned, have a context, a kind and a name.
proof fn lemma_cleaned_contains(s: Seq<FavoriteView>, x: FavoriteView)
    ensures
        cleaned_favorites(s).contains(x) <==> exists|i: int|
            0 <= i < s.len() && x == clean_favorite(#[trigger] s[i]) && favorite_kept(clean_favorite(s[i])),
    decreases s.len(),
{
    if s.len() > 0 {
        let d = s.drop_last();
        lemma_cleaned_contains(d, x);
        let c = cleaned_favorites(d);
        if exists|i: int| 0 <= i < d.len() && x == clean_favorite(#[trigger] d[i]) && favorite_kept(clean_favorite(d[i])) {
            let i = choose|i: int| 0 <= i < d.len() && x == clean_favorite(#[trigger] d[i]) && favorite_kept(clean_favorite(d[i]));
            assert(s[i] == d[i]);
        }
        if exists|i: int| 0 <= i < s.len() && x == clean_favorite(#[trigger] s[i]) && favorite_kept(clean_favorite(s[i])) {
            let i = choose|i: int| 0 <= i < s.len() && x == clean_favorite(#[trigger] s[i]) && favorite_kept(clean_favorite(s[i]));
            if i < d.len() {
                assert(s[i] == d[i]);
            } else {
                assert(cleaned_favorites(s) == c.push(x));
                assert(cleaned_favorites(s)[c.len() as int] == x);
            }
        }
        if favorite_kept(clean_favorite(s.last())) {
            let t = c.push(clean_favorite(s.last()));
            if t.contains(x) {
                let q = choose|q: int| 0 <= q < t.len() && t[q] == x;
                if q < c.len() {
                    assert(c[q] == x);
                } else {
                    assert(s[s.len() - 1] == s.last());
                }
            }
            if c.contains(x) {
                let q = choose|q: int| 0 <= q < c.len() && c[q] == x;
                assert(t[q] == x);
            }
        }
    }
}

/// Cleaning up favourites leaves them in order (by context, group, kind,
/// namespace, then name), with no favourite right after an equal one, and
/// holding exactly the clean forms (fields trimmed, a blank namespace
/// dropped) of the favourites that then have a context, a kind and a name.
pub proof fn lemma_normalized_favorites_shape(s: Seq<FavoriteView>, x: FavoriteView)
    ensures
        sorted_by(normalized_favorites(s), favorite_order()),
        adjacent_distinct(normalized_favorites(s)),
        normalized_favorites(s).contains(x) <==> exists|i: int|
            0 <= i < s.len() && x == clean_favorite(#[trigger] s[i]) && favorite_kept(clean_favorite(s[i])),
{
    let c = cleaned_favorites(s);
    lemma_favorite_order();
    lemma_stable_sort_sorted(c, favorite_order());
    lemma_dedup_shape(stable_sort_by(c, favorite_order()));
    lemma_normalized_contains(s, x);
    lemma_cleaned_contains(s, x);
}

/// Two favourites that neither sorts before pin the same object: same
/// context, group, kind, namespace and name.
proof fn lemma_favorite_order_total(a: FavoriteView, b: FavoriteView)
    requires
        !favorite_less(a, b),
        !favorite_less(b, a),
    ensures
        a.context == b.context && a.group == b.group && a.kind == b.kind && a.namespace == b.namespace
            && a.name == b.name,
{
    lemma_text_less_total(a.context, b.context);
    lemma_text_less_total(a.group, b.group);
    lemma_text_less_total(a.kind, b.kind);
    lemma_text_less_total(a.name, b.name);
    match (a.namespace, b.namespace) {
        (Some(x), Some(y)) => lemma_text_less_total(x, y),
        _ => {},
    }
}

/// Filtering out an element that the filter drops, wherever it was
/// inserted, gives what filtering without it gives.
proof fn lemma_filter_insert<A>(s: Seq<A>, p: int, x: A, keep: spec_fn(A) -> bool)
    requires
        0 <= p <= s.len(),
        !keep(x),
    ensures
        s.insert(p, x).filter(keep) == s.filter(keep),
    decreases s.len(),
{
    reveal(Seq::filter);
    let t = s.insert(p, x);
    if p == s.len() {
        assert(t.drop_last() =~= s);
    } else {
        lemma_filter_insert(s.drop_last(), p, x, keep);
        assert(t.drop_last() =~= s.drop_last().insert(p, x));
        assert(t.last() == s.last());
    }
}

/// Sorting a sorted list with one element pushed puts that element before
/// the first element that it sorts before.
proof fn lemma_stable_sort_push(s: Seq<FavoriteView>, x: FavoriteView)
    requires
        sorted_by(s, favorite_order()),
    ensures
        stable_sort_by(s.push(x), favorite_order()) == s.insert(first_where(s, sorts_after_by(favorite_order(), x)), x),
{
    lemma_stable_sort_of_sorted(s, favorite_order());
    assert(s.push(x).drop_last() =~= s);
}

/// A list of favourites that clean-up leaves as it is.
spec fn clean_sorted_favorites(s: Seq<FavoriteView>) -> bool {
    &&& sorted_by(s, favorite_order())
    &&& adjacent_distinct(s)
    &&& forall|k: int| 0 <= k < s.len() ==> clean_favorite(#[trigger] s[k]) == s[k] && favorite_kept(s[k])
}

/// Pushing a clean favourite that a clean, sorted list lacks and cleaning
/// up puts it at its place and keeps the rest.
#[verifier::spinoff_prover]
proof fn lemma_normalized_push_new(s: Seq<FavoriteView>, f: FavoriteView)
    requires
        clean_sorted_favorites(s),
        clean_favorite(f) == f,
        favorite_kept(f),
        !s.contains(f),
    ensures
        normalized_favorites(s.push(f)) == s.insert(first_where(s, sorts_after_by(favorite_order(), f)), f),
{
    let s2 = s.push(f);
    assert forall|k: int| 0 <= k < s2.len() implies clean_favorite(#[trigger] s2[k]) == s2[k] && favorite_kept(s2[k]) by {
        if k < s.len() {
            assert(s2[k] == s[k]);
        }
    }
    lemma_cleaned_favorites_unchanged(s2);
    let p = first_where(s, sorts_after_by(favorite_order(), f));
    lemma_first_where_bounds(s, sorts_after_by(favorite_order(), f));
    lemma_stable_sort_push(s, f);
    let n = s.insert(p, f);
    assert forall|i: int| 0 <= i < n.len() - 1 implies #[trigger] n[i] != n[i + 1] by {
        if i + 1 < p {
            assert(n[i] == s[i] && n[i + 1] == s[i + 1]);
        } else if i + 1 == p {
            assert(n[i] == s[i]);
        } else if i == p {
            assert(n[i + 1] == s[i]);
        } else {
            assert(n[i] == s[i - 1] && n[i + 1] == s[i]);
        }
    }
    lemma_dedup_of_distinct(n);
}

/// Toggling an object that is not pinned, then toggling it again.
#[verifier::spinoff_prover]
proof fn lemma_toggle_unpinned(before: Seq<FavoriteView>, t: TargetView)
    requires
        clean_sorted_favorites(before),
        normalized_favorites(before) == before,
        clean_favorite(favorite_of(t)) == favorite_of(t),
        favorite_kept(favorite_of(t)),
        !before.contains(favorite_of(t)),
    ensures
        toggled_favorites(toggled_favorites(before, t), t) == before,
{
    let f = favorite_of(t);
    let d = differs_from_favorite(f);
    assert forall|i: int| 0 <= i < before.len() implies d(#[trigger] before[i]) by {
        assert(before.contains(before[i]));
    }
    lemma_filter_all_pass(before, d);
    lemma_normalized_push_new(before, f);
    let p = first_where(before, sorts_after_by(favorite_order(), f));
    lemma_first_where_bounds(before, sorts_after_by(favorite_order(), f));
    let n1 = before.insert(p, f);
    assert(toggled_favorites(before, t) == n1);
    lemma_filter_insert(before, p, f, d);
    assert(n1.filter(d).len() != n1.len());
}

/// In a clean, sorted list where only the favourite `favorite_of(t)` pins
/// `t`, that favourite occurs once.
#[verifier::spinoff_prover]
proof fn lemma_pinned_once(before: Seq<FavoriteView>, t: TargetView, p: int)
    requires
        clean_sorted_favorites(before),
        0 <= p < before.len(),
        before[p] == favorite_of(t),
        forall|k: int| 0 <= k < before.len() && favorite_matches(#[trigger] before[k], t) ==> before[k] == favorite_of(t),
    ensures
        forall|k: int| 0 <= k < before.len() && k != p ==> before[k] != favorite_of(t),
{
    let f = favorite_of(t);
    let less = favorite_order();
    assert forall|k: int| 0 <= k < before.len() && k != p implies before[k] != f by {
        if before[k] == f {
            let a = if k < p { k } else { p };
            let b = if k < p { p } else { k };
            let x = before[a + 1];
            if a + 1 < b {
                assert(!less(before[a + 1], before[a]));
                assert(!less(before[b], before[a + 1]));
                lemma_favorite_order_total(x, f);
                assert(favorite_matches(before[a + 1], t));
            }
            assert(before[a] != before[a + 1]);
        }
    }
}

/// Taking an element out of a clean, sorted list leaves it clean and sorted.
#[verifier::spinoff_prover]
proof fn lemma_removed_sorted(before: Seq<FavoriteView>, p: int)
    requires
        clean_sorted_favorites(before),
        0 <= p < before.len(),
    ensures
        sorted_by(before.remove(p), favorite_order()),
        forall|k: int|
            0 <= k < before.remove(p).len() ==> clean_favorite(#[trigger] before.remove(p)[k]) == before.remove(p)[k]
                && favorite_kept(before.remove(p)[k]),
{
    let less = favorite_order();
    let r = before.remove(p);
    assert forall|i: int, j: int| 0 <= i < j < r.len() implies !less(#[trigger] r[j], #[trigger] r[i]) by {
        let bi = if i < p { i } else { i + 1 };
        let bj = if j < p { j } else { j + 1 };
        assert(r[i] == before[bi] && r[j] == before[bj]);
    }
    assert forall|k: int| 0 <= k < r.len() implies clean_favorite(#[trigger] r[k]) == r[k] && favorite_kept(r[k]) by {
        if k < p {
            assert(r[k] == before[k]);
        } else {
            assert(r[k] == before[k + 1]);
        }
    }
}

/// Taking the only copy of `favorite_of(t)` out of a clean, sorted list in
/// which nothing else pins `t` leaves no favourite right after an equal one.
#[verifier::spinoff_prover]
proof fn lemma_removed_distinct(before: Seq<FavoriteView>, t: TargetView, p: int)
    requires
        clean_sorted_favorites(before),
        0 <= p < before.len(),
        before[p] == favorite_of(t),
        forall|k: int| 0 <= k < before.len() && k != p ==> before[k] != favorite_of(t),
        forall|k: int| 0 <= k < before.len() && favorite_matches(#[trigger] before[k], t) ==> before[k] == favorite_of(t),
    ensures
        adjacent_distinct(before.remove(p)),
{
    let r = before.remove(p);
    if 0 < p && p + 1 < before.len() {
        lemma_neighbours_differ(before, t, p);
    }
    assert forall|i: int| 0 <= i < r.len() - 1 implies #[trigger] r[i] != r[i + 1] by {
        if i + 1 < p {
            assert(r[i] == before[i] && r[i + 1] == before[i + 1]);
        } else if i >= p {
            assert(r[i] == before[i + 1] && r[i + 1] == before[i + 2]);
        } else {
            assert(r[i] == before[p - 1] && r[i + 1] == before[p + 1]);
        }
    }
}

/// The two neighbours of the only favourite that pins `t`, in a clean,
/// sorted list, differ.
proof fn lemma_neighbours_differ(before: Seq<FavoriteView>, t: TargetView, p: int)
    requires
        clean_sorted_favorites(before),
        0 < p,
        p + 1 < before.len(),
        before[p] == favorite_of(t),
        before[p - 1] != favorite_of(t),
        forall|k: int| 0 <= k < before.len() && favorite_matches(#[trigger] before[k], t) ==> before[k] == favorite_of(t),
    ensures
        before[p - 1] != before[p + 1],
{
    let less = favorite_order();
    if before[p - 1] == before[p + 1] {
        assert(!less(before[p], before[p - 1]));
        assert(!less(before[p + 1], before[p]));
        lemma_favorite_order_total(before[p - 1], favorite_of(t));
        assert(favorite_matches(before[p - 1], t));
    }
}

/// The favourite `favorite_of(t)`, taken out of a clean, sorted list in
/// which nothing else pins `t`, goes back at the same place.
#[verifier::spinoff_prover]
proof fn lemma_removed_place(before: Seq<FavoriteView>, t: TargetView, p: int)
    requires
        clean_sorted_favorites(before),
        0 <= p < before.len(),
        before[p] == favorite_of(t),
        forall|k: int| 0 <= k < before.len() && k != p ==> before[k] != favorite_of(t),
        forall|k: int| 0 <= k < before.len() && favorite_matches(#[trigger] before[k], t) ==> before[k] == favorite_of(t),
    ensures
        first_where(before.remove(p), sorts_after_by(favorite_order(), favorite_of(t))) == p,
{
    let f = favorite_of(t);
    let less = favorite_order();
    let r = before.remove(p);
    let g = sorts_after_by(less, f);
    assert forall|k: int| 0 <= k < p implies !g(#[trigger] r[k]) by {
        assert(r[k] == before[k]);
        assert(!less(before[p], before[k]));
    }
    if p < r.len() {
        assert(r[p] == before[p + 1]);
        assert(!less(before[p + 1], before[p]));
        if !less(f, before[p + 1]) {
            lemma_favorite_order_total(before[p + 1], f);
            assert(favorite_matches(before[p + 1], t));
        }
    }
    lemma_first_where_at(r, g, p);
}

/// Toggling a pinned object, then toggling it again.
#[verifier::spinoff_prover]
proof fn lemma_toggle_pinned(before: Seq<FavoriteView>, t: TargetView)
    requires
        clean_sorted_favorites(before),
        clean_favorite(favorite_of(t)) == favorite_of(t),
        favorite_kept(favorite_of(t)),
        before.contains(favorite_of(t)),
        forall|k: int| 0 <= k < before.len() && favorite_matches(#[trigger] before[k], t) ==> before[k] == favorite_of(t),
    ensures
        toggled_favorites(toggled_favorites(before, t), t) == before,
{
    let f = favorite_of(t);
    let less = favorite_order();
    let d = differs_from_favorite(f);
    lemma_favorite_order();
    let p = choose|p: int| 0 <= p < before.len() && before[p] == f;
    lemma_pinned_once(before, t, p);
    lemma_removed_sorted(before, p);
    lemma_removed_distinct(before, t, p);
    lemma_removed_place(before, t, p);
    let r = before.remove(p);
    assert(r.insert(p, f) =~= before);
    assert forall|i: int| 0 <= i < r.len() implies d(#[trigger] r[i]) by {
        if i < p {
            assert(r[i] == before[i]);
        } else {
            assert(r[i] == before[i + 1]);
        }
    }
    lemma_filter_insert(r, p, f, d);
    lemma_filter_all_pass(r, d);
    assert(before.filter(d) == r);
    assert(!r.contains(f)) by {
        if r.contains(f) {
            let q = choose|q: int| 0 <= q < r.len() && r[q] == f;
            assert(d(r[q]));
        }
    }
    lemma_cleaned_favorites_unchanged(r);
    lemma_stable_sort_of_sorted(r, less);
    lemma_dedup_of_distinct(r);
    assert(toggled_favorites(before, t) == r);
    lemma_normalized_push_new(r, f);
}

/// Toggling an object twice gives back the favourites, in a list in the
/// form clean-up leaves it, when the favourite that pins the object is
/// clean (fields trimmed, a blank namespace dropped) and kept (a context, a
/// kind and a name), and no other favourite of the list pins the object.
pub proof fn lemma_toggle_twice(before: Seq<FavoriteView>, t: TargetView)
    requires
        normalized_favorites(before) == before,
        clean_favorite(favorite_of(t)) == favorite_of(t),
        favorite_kept(favorite_of(t)),
        forall|k: int| 0 <= k < before.len() && favorite_matches(#[trigger] before[k], t) ==> before[k] == favorite_of(t),
    ensures
        toggled_favorites(toggled_favorites(before, t), t) == before,
{
    let f = favorite_of(t);
    let less = favorite_order();
    lemma_favorite_order();
    lemma_normalized_favorites_shape(before, f);
    lemma_normalized_favorites_clean(before);
    if before.contains(f) {
        lemma_toggle_pinned(before, t);
    } else {
        lemma_toggle_unpinned(before, t);
    }
}

/// Cleaning up favourites twice gives what cleaning up once gives.
pub proof fn lemma_normalize_favorites_idempotent(s: Seq<FavoriteView>)
    ensures
        normalized_favorites(normalized_favorites(s)) == normalized_favorites(s),
{
    let n = normalized_favorites(s);
    let c = cleaned_favorites(s);
    lemma_normalized_favorites_clean(s);
    lemma_cleaned_favorites_unchanged(n);
    lemma_favorite_order();
    lemma_stable_sort_sorted(c, favorite_order());
    lemma_dedup_shape(stable_sort_by(c, favorite_order()));
    lemma_stable_sort_of_sorted(n, favorite_order());
    lemma_dedup_of_distinct(n);
}

/// Cleaning up the remembered namespaces a second time changes nothing.
pub proof fn lemma_normalize_selections_idempotent(r: Seq<SelectionView>, es: Seq<SelectionView>, r2: Seq<SelectionView>)
    requires
        normalized_selections(r, es),
        normalized_selections(r2, r),
    ensures
        r2 == r,
{
    lemma_normalized_selections_clean(r, es);
    lemma_text_order();
    assert forall|k: int| 0 <= k < r.len() implies selection_kept_fn()(#[trigger] r[k])
        && clean_selection_fn()(r[k]) == r[k] by {
    }
    lemma_first_per_key_of_itself(r, selection_kept_fn(), clean_selection_fn(), selection_context_fn(), text_order());
    lemma_first_per_key_unique(r2, r, r, selection_kept_fn(), clean_selection_fn(), selection_context_fn(), text_order());
}

proof fn lemma_kept_namespaces_shape(ns: Seq<Seq<char>>)
    ensures
        forall|i: int|
            0 <= i < kept_namespaces(ns).len() ==> trimmed(#[trigger] kept_namespaces(ns)[i])
                == kept_namespaces(ns)[i] && keeps_namespace(kept_namespaces(ns)[i]),
    decreases ns.len(),
{
    if ns.len() > 0 {
        let prev = kept_namespaces(ns.drop_last());
        lemma_kept_namespaces_shape(ns.drop_last());
        lemma_trimmed_idempotent(ns.last());
        if keeps_namespace(ns.last()) {
            let r = prev.push(trimmed(ns.last()));
            assert(kept_namespaces(ns) == r);
            assert forall|i: int| 0 <= i < r.len() implies trimmed(#[trigger] r[i]) == r[i] && keeps_namespace(r[i]) by {
                if i < prev.len() {
                    assert(r[i] == prev[i]);
                }
            }
        }
    }
}

proof fn lemma_kept_namespaces_unchanged(ns: Seq<Seq<char>>)
    requires
        forall|i: int| 0 <= i < ns.len() ==> trimmed(#[trigger] ns[i]) == ns[i] && keeps_namespace(ns[i]),
    ensures
        kept_namespaces(ns) == ns,
    decreases ns.len(),
{
    if ns.len() > 0 {
        assert(trimmed(ns[ns.len() - 1]) == ns[ns.len() - 1]);
        lemma_kept_namespaces_unchanged(ns.drop_last());
        assert(ns.drop_last().push(ns.last()) =~= ns);
    }
}

/// A cleaned entry of hand-added namespaces is its own clean form.
proof fn lemma_clean_entry_idempotent(e: NamespacesView)
    ensures
        clean_entry(clean_entry(e)) == clean_entry(e),
{
    let k = kept_namespaces(e.namespaces);
    let n1 = sorted_set(k);
    lemma_trimmed_idempotent(e.context);
    lemma_kept_namespaces_shape(e.namespaces);
    lemma_sorted_set(k);
    assert forall|i: int| 0 <= i < n1.len() implies trimmed(#[trigger] n1[i]) == n1[i] && keeps_namespace(n1[i]) by {
        assert(n1.to_set().contains(n1[i]));
        assert(k.to_set().contains(n1[i]));
        let q = choose|q: int| 0 <= q < k.len() && k[q] == n1[i];
    }
    lemma_kept_namespaces_unchanged(n1);
    lemma_sorted_set(n1);
    assert(is_sorted_set_of(n1, n1));
}

/// Cleaning up the hand-added namespaces of a project a second time
/// changes nothing.
pub proof fn lemma_normalize_entries_idempotent(r: Seq<NamespacesView>, es: Seq<NamespacesView>, r2: Seq<NamespacesView>)
    requires
        normalized_entries(r, es),
        normalized_entries(r2, r),
    ensures
        r2 == r,
{
    lemma_text_order();
    assert forall|k: int| 0 <= k < r.len() implies entry_kept_fn()(#[trigger] r[k])
        && clean_entry_fn()(r[k]) == r[k] by {
        assert(has_first_kept(es, entry_kept_fn(), clean_entry_fn(), entry_context_fn(), r[k]));
        let j = choose|j: int|
            #[trigger] first_kept(
                es,
                entry_kept_fn(),
                clean_entry_fn(),
                entry_context_fn(),
                entry_context_fn()(r[k]),
                j,
            ) && r[k] == clean_entry_fn()(es[j]);
        lemma_clean_entry_idempotent(es[j]);
    }
    lemma_first_per_key_of_itself(r, entry_kept_fn(), clean_entry_fn(), entry_context_fn(), text_order());
    lemma_first_per_key_unique(r2, r, r, entry_kept_fn(), clean_entry_fn(), entry_context_fn(), text_order());
}

/// Cleaning up the projects against the live contexts never adds a
/// context to a project: each context a project keeps it had before and,
/// when the live list is not empty, is live.
pub proof fn lemma_normalize_contexts_adds_nothing(
    before: StoreView,
    after: StoreView,
    contexts: Seq<crate::store::ContextInfo>,
    k: int,
    c: Seq<char>,
)
    requires
        contexts_normalized(after, before, contexts),
        0 <= k < after.projects.len(),
        after.projects[k].contexts.contains(c),
    ensures
        before.projects[k].contexts.contains(c),
        contexts.len() > 0 ==> context_names(contexts).contains(c),
{
    let p = before.projects[k];
    assert(project_normalized(after.projects[k], p, contexts));
    let pruned = pruned_contexts(p, contexts);
    lemma_sorted_set(pruned);
    assert(sorted_set(pruned).to_set().contains(c));
    assert(pruned.to_set().contains(c));
    let q = choose|q: int| 0 <= q < pruned.len() && pruned[q] == c;
    if contexts.len() > 0 {
        lemma_filter_elements(p.contexts, named_in(context_names(contexts)));
        assert(named_in(context_names(contexts))(pruned[q]));
    }
}

} // verus!
