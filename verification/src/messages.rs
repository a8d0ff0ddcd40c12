//! Messages shown to the user: error summaries for toasts, terminal
//! failures, message templates and counts.

use vstd::prelude::*;
use crate::favorite::optional_view;
use crate::order::text_eq;
use crate::sorted::{first_where, lemma_first_where_at, views};
use crate::text::{
    ascii_lower, contains_str, decimal, has_prefix, has_substring, push_str, replace_text,
    replaced, split_whitespace, starts_with, to_ascii_lowercase, usize_text, words,
};

verus! {

/// What a terminal shows when the cluster refuses to open an exec session.
pub const TERMINAL_PERMISSION_MESSAGE: &'static str = "You do not have permission to open a terminal for this Pod. Your Kubernetes user needs create access to pods/exec in this namespace.";

/// `anyhow::Error`, carried through as an opaque value.
#[verifier::external_type_specification]
#[verifier::external_body]
pub struct ExAnyhowError(anyhow::Error);

/// A word that begins with "forbidden" (also "forbidden:").
pub open spec fn is_forbidden_word() -> spec_fn(Seq<char>) -> bool {
    |w: Seq<char>| has_prefix(w, "forbidden"@)
}

/// The short form of a Kubernetes RBAC denial: of the words of `message`,
/// the first that begins with "forbidden" must follow "is", which must
/// follow the name of the resource; the summary is "<resource> is
/// forbidden". Any other message has none.
pub open spec fn forbidden_summary_of(message: Seq<char>) -> Option<Seq<char>> {
    let ws = words(message);
    let p = first_where(ws, is_forbidden_word());
    if p >= ws.len() || p < 2 || ws[p - 1] != "is"@ {
        None
    } else {
        Some(ws[p - 2] + " is forbidden"@)
    }
}

/// "<resource> is forbidden" out of a Kubernetes RBAC denial, which spells
/// out user, resource, API group and scope; `None` for other messages.
pub fn forbidden_summary(message: &str) -> (r: Option<String>)
    ensures
        optional_view(r) == forbidden_summary_of(message@),
{
    let ws = split_whitespace(message);
    let ghost wv = views(ws@);
    let mut p: usize = 0;
    while p < ws.len() && !starts_with(ws[p].as_str(), "forbidden")
        invariant
            p <= ws.len(),
            wv == views(ws@),
            wv == words(message@),
            forall|k: int| 0 <= k < p ==> !is_forbidden_word()(#[trigger] wv[k]),
        decreases ws.len() - p,
    {
        p += 1;
    }
    proof {
        lemma_first_where_at(wv, is_forbidden_word(), p as int);
    }
    if p == ws.len() || p < 2 || !text_eq(ws[p - 1].as_str(), "is") {
        return None;
    }
    let mut r = ws[p - 2].clone();
    push_str(&mut r, " is forbidden");
    Some(r)
}

/// The one-line summary of an error chain given by its messages, outermost
/// first: the outermost message, followed by the root cause in brackets
/// (shortened when it is an RBAC denial) when the chain has more than one
/// link. The wrapping in between tends to repeat the headline and is left
/// out.
pub open spec fn error_summary(messages: Seq<Seq<char>>) -> Seq<char> {
    let headline = if messages.len() == 0 {
        "Unknown error"@
    } else {
        messages[0]
    };
    if messages.len() <= 1 {
        headline
    } else {
        let cause = messages.last();
        let shown = match forbidden_summary_of(cause) {
            Some(s) => s,
            None => cause,
        };
        headline + " ("@ + shown + ")"@
    }
}

/// The one-line summary of an error chain given by its messages.
pub fn format_error_message(messages: &Vec<String>) -> (r: String)
    ensures
        r@ == error_summary(views(messages@)),
{
    let n = messages.len();
    let mut r = if n == 0 {
        String::from_str("Unknown error")
    } else {
        messages[0].clone()
    };
    if n <= 1 {
        return r;
    }
    let cause = messages[n - 1].as_str();
    let shown = match forbidden_summary(cause) {
        Some(s) => s,
        None => cause.to_owned(),
    };
    push_str(&mut r, " (");
    push_str(&mut r, shown.as_str());
    push_str(&mut r, ")");
    r
}

/// The messages of `error` and of each error in its chain of sources, in
/// order (`anyhow::Error::chain`, each rendered by its `Display`). The chain
/// begins with `error` itself, so it is never empty; what each message says
/// comes from the error types' `Display` impls and is not stated.
#[verifier::external_body]
fn error_chain_messages(error: &anyhow::Error) -> (r: Vec<String>)
    ensures
        r.len() >= 1,
{
    let mut r = Vec::new();
    for cause in error.chain() {
        r.push(cause.to_string());
    }
    r
}

/// The one-line summary of `error` for a toast: its message and that of its
/// root cause.
pub fn format_error(error: anyhow::Error) -> (r: String)
    ensures
        exists|m: Seq<Seq<char>>| m.len() >= 1 && r@ == error_summary(m),
{
    let messages = error_chain_messages(&error);
    format_error_message(&messages)
}

/// Whether a lower-cased exec failure says that the user may not exec into
/// the Pod.
pub open spec fn lacks_exec_permission(lower: Seq<char>) -> bool {
    ||| has_substring(lower, "forbidden"@)
    ||| has_substring(lower, "pods/exec"@)
    ||| has_substring(lower, "cannot create"@) && has_substring(lower, "exec"@)
}

/// What the terminal shows when an exec session fails with `error`.
pub open spec fn terminal_error_text(error: Seq<char>) -> Seq<char> {
    if lacks_exec_permission(ascii_lower(error)) {
        TERMINAL_PERMISSION_MESSAGE@
    } else {
        "Terminal failed to start: "@ + error
    }
}

/// What the terminal shows when an exec session fails with `error`: a hint
/// about the missing permission when the cluster refused, else the error.
pub fn terminal_error_message(error: &str) -> (r: String)
    ensures
        r@ == terminal_error_text(error@),
{
    let lower = to_ascii_lowercase(error);
    let l = lower.as_str();
    if contains_str(l, "forbidden") || contains_str(l, "pods/exec") || (contains_str(
        l,
        "cannot create",
    ) && contains_str(l, "exec")) {
        return String::from_str(TERMINAL_PERMISSION_MESSAGE);
    }
    let mut r = String::from_str("Terminal failed to start: ");
    push_str(&mut r, error);
    r
}

/// The placeholder/value pairs of a template, as character sequences.
pub open spec fn replacement_views<'a>(r: Seq<(&'a str, String)>) -> Seq<(Seq<char>, Seq<char>)> {
    r.map_values(|p: (&'a str, String)| (p.0@, p.1@))
}

/// `s` with each replacement applied in turn, every occurrence of its key
/// replaced by its value.
pub open spec fn replaced_all(s: Seq<char>, reps: Seq<(Seq<char>, Seq<char>)>) -> Seq<char>
    decreases reps.len(),
{
    if reps.len() == 0 {
        s
    } else {
        replaced(replaced_all(s, reps.drop_last()), reps.last().0, reps.last().1)
    }
}

/// A message, already translated, with its placeholders filled in: each
/// replacement applied in the order given, every occurrence of its key
/// replaced by its value (`str::replace`).
pub fn tr_format(message: &str, replacements: &[(&str, String)]) -> (r: String)
    ensures
        r@ == replaced_all(message@, replacement_views(replacements@)),
{
    let ghost reps = replacement_views(replacements@);
    let mut r = message.to_owned();
    let mut i: usize = 0;
    while i < replacements.len()
        invariant
            i <= replacements.len(),
            reps == replacement_views(replacements@),
            r@ == replaced_all(message@, reps.take(i as int)),
        decreases replacements.len() - i,
    {
        let (key, value) = &replacements[i];
        r = replace_text(r.as_str(), key, value.as_str());
        proof {
            assert(reps.take(i + 1).drop_last() =~= reps.take(i as int));
        }
        i += 1;
    }
    assert(reps.take(replacements.len() as int) =~= reps);
    r
}

/// `count` followed by a noun.
fn count_with_noun(count: usize, noun: &str) -> (r: String)
    ensures
        r@ == decimal(count as nat) + " "@ + noun@,
{
    let mut r = usize_text(count);
    push_str(&mut r, " ");
    push_str(&mut r, noun);
    r
}

/// "<count> <noun>", where `noun` is "resource type" in the plural form
/// that the interface's language uses for `count`, already translated.
pub fn resource_count_label(count: usize, noun: &str) -> (r: String)
    ensures
        r@ == decimal(count as nat) + " "@ + noun@,
{
    count_with_noun(count, noun)
}

/// "<count> cluster" or "<count> clusters".
pub fn project_context_count(count: usize) -> (r: String)
    ensures
        r@ == decimal(count as nat) + " "@ + (if count == 1 {
            "cluster"@
        } else {
            "clusters"@
        }),
{
    count_with_noun(count, if count == 1 { "cluster" } else { "clusters" })
}

} // verus!
