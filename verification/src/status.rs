//! Object status: the status filters of the object list and the tone in
//! which a status is shown.

use vstd::prelude::*;
use crate::order::text_eq;
use crate::resource::{is_one_of, lemma_unlisted, one_of, texts_apart};
use crate::text::{ascii_lower, eq_ignore_ascii_case, split_whitespace, to_ascii_lowercase, words};

verus! {

/// A status that the object list can be narrowed to.
#[derive(Debug, Clone, Copy, PartialEq, Eq, Structural)]
pub enum StatusFilter {
    Ready,
    Available,
    Unavailable,
    Running,
    Pending,
    Failed,
}

/// Every status filter, in order.
pub open spec fn all_status_filters() -> Seq<StatusFilter> {
    seq![
        StatusFilter::Ready,
        StatusFilter::Available,
        StatusFilter::Unavailable,
        StatusFilter::Running,
        StatusFilter::Pending,
        StatusFilter::Failed,
    ]
}

/// The word that a status must begin with to pass a filter.
pub open spec fn status_keyword(f: StatusFilter) -> Seq<char> {
    match f {
        StatusFilter::Ready => "Ready"@,
        StatusFilter::Available => "Available"@,
        StatusFilter::Unavailable => "Unavailable"@,
        StatusFilter::Running => "Running"@,
        StatusFilter::Pending => "Pending"@,
        StatusFilter::Failed => "Failed"@,
    }
}

/// The first word of `status` is `keyword`, up to ASCII case.
pub open spec fn first_word_is(status: Seq<char>, keyword: Seq<char>) -> bool {
    words(status).len() > 0 && ascii_lower(words(status)[0]) == ascii_lower(keyword)
}

/// `status` passes the filter `f`.
pub open spec fn filter_matches(f: StatusFilter, status: Seq<char>) -> bool {
    first_word_is(status, status_keyword(f))
}

/// `status` passes a selection of filters: every filter is selected, or one
/// of the selected filters lets it through.
pub open spec fn passes_filters(status: Seq<char>, filters: Seq<StatusFilter>) -> bool {
    filters.len() == all_status_filters().len() || exists|i: int|
        0 <= i < filters.len() && filter_matches(#[trigger] filters[i], status)
}

impl StatusFilter {
    /// Every status filter, in order.
    pub fn all() -> (r: Vec<StatusFilter>)
        ensures
            r@ == all_status_filters(),
    {
        let r = vec![
            StatusFilter::Ready,
            StatusFilter::Available,
            StatusFilter::Unavailable,
            StatusFilter::Running,
            StatusFilter::Pending,
            StatusFilter::Failed,
        ];
        assert(r@ =~= all_status_filters());
        r
    }

    /// The name of the filter, as the message that the interface translates.
    pub fn label(self) -> (r: &'static str)
        ensures
            r@ == status_keyword(self),
    {
        self.keyword()
    }

    /// The word that a status must begin with to pass this filter.
    pub fn keyword(self) -> (r: &'static str)
        ensures
            r@ == status_keyword(self),
    {
        match self {
            StatusFilter::Ready => "Ready",
            StatusFilter::Available => "Available",
            StatusFilter::Unavailable => "Unavailable",
            StatusFilter::Running => "Running",
            StatusFilter::Pending => "Pending",
            StatusFilter::Failed => "Failed",
        }
    }

    /// Whether the first word of `status` is this filter's keyword, up to
    /// ASCII case.
    pub fn matches(self, status: &str) -> (r: bool)
        ensures
            r == filter_matches(self, status@),
    {
        let ws = split_whitespace(status);
        if ws.len() == 0 {
            return false;
        }
        eq_ignore_ascii_case(ws[0].as_str(), self.keyword())
    }

    /// Whether `status` passes the selected filters, a set (no filter
    /// twice); with every filter selected, every status passes.
    pub fn matches_any(status: &str, filters: &[StatusFilter]) -> (r: bool)
        requires
            filters@.no_duplicates(),
        ensures
            r == passes_filters(status@, filters@),
    {
        if filters.len() == 6 {
            return true;
        }
        let mut i: usize = 0;
        while i < filters.len()
            invariant
                i <= filters.len(),
                forall|k: int| 0 <= k < i ==> !filter_matches(#[trigger] filters@[k], status@),
            decreases filters.len() - i,
        {
            if filters[i].matches(status) {
                return true;
            }
            i += 1;
        }
        false
    }

    /// The filters selected at first: all of them.
    pub fn default_filters() -> (r: Vec<StatusFilter>)
        ensures
            r@ == all_status_filters(),
    {
        StatusFilter::all()
    }
}

/// With every filter selected, every status passes.
pub proof fn lemma_all_filters_pass(status: Seq<char>)
    ensures
        passes_filters(status, all_status_filters()),
{
}

/// How a status is coloured.
#[derive(Debug, Clone, Copy, PartialEq, Eq, Structural)]
pub enum StatusTone {
    Good,
    Warning,
    Bad,
    Info,
    Neutral,
}

pub open spec fn tone_class(t: StatusTone) -> Seq<char> {
    match t {
        StatusTone::Good => "status-good"@,
        StatusTone::Warning => "status-warning"@,
        StatusTone::Bad => "status-bad"@,
        StatusTone::Info => "status-info"@,
        StatusTone::Neutral => "status-neutral"@,
    }
}

impl StatusTone {
    /// The CSS class of the tone.
    pub fn css_class(self) -> (r: &'static str)
        ensures
            r@ == tone_class(self),
    {
        match self {
            StatusTone::Good => "status-good",
            StatusTone::Warning => "status-warning",
            StatusTone::Bad => "status-bad",
            StatusTone::Info => "status-info",
            StatusTone::Neutral => "status-neutral",
        }
    }
}

pub open spec fn good_statuses() -> Seq<Seq<char>> {
    seq![
        "ready"@,
        "running"@,
        "complete"@,
        "active"@,
        "clusterip"@,
        "nodeport"@,
        "loadbalancer"@,
    ]
}

pub open spec fn warning_statuses() -> Seq<Seq<char>> {
    seq!["updating"@, "progressing"@, "pending"@, "scheduled"@, "suspended"@, "scaled"@]
}

pub open spec fn bad_statuses() -> Seq<Seq<char>> {
    seq!["failed"@, "error"@, "unavailable"@, "notready"@, "unknown"@]
}

pub open spec fn info_statuses() -> Seq<Seq<char>> {
    seq!["managed"@, "externalname"@]
}

/// The tone of a status word, which is matched without regard to ASCII case.
pub open spec fn tone_of(status: Seq<char>) -> StatusTone {
    let l = ascii_lower(status);
    if one_of(l, good_statuses()) {
        StatusTone::Good
    } else if one_of(l, warning_statuses()) {
        StatusTone::Warning
    } else if one_of(l, bad_statuses()) {
        StatusTone::Bad
    } else if one_of(l, info_statuses()) {
        StatusTone::Info
    } else {
        StatusTone::Neutral
    }
}

/// The tone in which a status word is shown.
pub fn status_tone(status: &str) -> (r: StatusTone)
    ensures
        r == tone_of(status@),
{
    let lower = to_ascii_lowercase(status);
    let l = lower.as_str();
    let good = ["ready", "running", "complete", "active", "clusterip", "nodeport", "loadbalancer"];
    let warning = ["updating", "progressing", "pending", "scheduled", "suspended", "scaled"];
    let bad = ["failed", "error", "unavailable", "notready", "unknown"];
    let info = ["managed", "externalname"];
    proof {
        assert(good@.map_values(|o: &str| o@) =~= good_statuses());
        assert(warning@.map_values(|o: &str| o@) =~= warning_statuses());
        assert(bad@.map_values(|o: &str| o@) =~= bad_statuses());
        assert(info@.map_values(|o: &str| o@) =~= info_statuses());
    }
    if is_one_of(l, &good) {
        StatusTone::Good
    } else if is_one_of(l, &warning) {
        StatusTone::Warning
    } else if is_one_of(l, &bad) {
        StatusTone::Bad
    } else if is_one_of(l, &info) {
        StatusTone::Info
    } else {
        StatusTone::Neutral
    }
}

pub open spec fn filter_tone(f: StatusFilter) -> StatusTone {
    match f {
        StatusFilter::Ready | StatusFilter::Available | StatusFilter::Running => StatusTone::Good,
        StatusFilter::Pending | StatusFilter::Unavailable => StatusTone::Warning,
        StatusFilter::Failed => StatusTone::Bad,
    }
}

/// The tone of a status filter's chip.
pub fn status_filter_tone(filter: StatusFilter) -> (r: StatusTone)
    ensures
        r == filter_tone(filter),
{
    match filter {
        StatusFilter::Ready | StatusFilter::Available | StatusFilter::Running => StatusTone::Good,
        StatusFilter::Pending | StatusFilter::Unavailable => StatusTone::Warning,
        StatusFilter::Failed => StatusTone::Bad,
    }
}

/// Whether a status says something, rather than being blank or the "-"
/// placeholder of kinds without status.
pub fn has_meaningful_status(status: &str) -> (r: bool)
    ensures
        r == (status@.len() > 0 && status@ != "-"@),
{
    !status.is_empty() && !text_eq(status, "-")
}

pub open spec fn pod_state_class(state: Seq<char>) -> Seq<char> {
    if state == "Running"@ {
        "pod-state-running"@
    } else if state == "Pending"@ {
        "pod-state-pending"@
    } else if state == "Succeeded"@ {
        "pod-state-succeeded"@
    } else if state == "Failed"@ {
        "pod-state-failed"@
    } else {
        "pod-state-unknown"@
    }
}

/// The CSS class of a Pod phase.
pub fn pod_state_css_class(state: &str) -> (r: &'static str)
    ensures
        r@ == pod_state_class(state@),
{
    if text_eq(state, "Running") {
        "pod-state-running"
    } else if text_eq(state, "Pending") {
        "pod-state-pending"
    } else if text_eq(state, "Succeeded") {
        "pod-state-succeeded"
    } else if text_eq(state, "Failed") {
        "pod-state-failed"
    } else {
        "pod-state-unknown"
    }
}


/// A status word, read without regard to ASCII case, is shown as good
/// when it is ready, running, complete, active or one of the Service
/// types ClusterIP, NodePort and LoadBalancer.
pub proof fn lemma_good_tone(s: Seq<char>)
    requires
        ({
            let l = ascii_lower(s);
            l == "ready"@ || l == "running"@ || l == "complete"@ || l == "active"@ || l == "clusterip"@
                || l == "nodeport"@ || l == "loadbalancer"@
        }),
    ensures
        tone_of(s) == StatusTone::Good,
{
    reveal_strlit("ready");
    reveal_strlit("running");
    reveal_strlit("complete");
    reveal_strlit("active");
    reveal_strlit("clusterip");
    reveal_strlit("nodeport");
    reveal_strlit("loadbalancer");
    reveal_strlit("updating");
    reveal_strlit("progressing");
    reveal_strlit("pending");
    reveal_strlit("scheduled");
    reveal_strlit("suspended");
    reveal_strlit("scaled");
    reveal_strlit("failed");
    reveal_strlit("error");
    reveal_strlit("unavailable");
    reveal_strlit("notready");
    reveal_strlit("unknown");
    reveal_strlit("managed");
    reveal_strlit("externalname");
    let l = ascii_lower(s);
    let g = good_statuses();
    assert(g[0] == "ready"@ && g[1] == "running"@ && g[2] == "complete"@ && g[3] == "active"@);
    assert(g[4] == "clusterip"@ && g[5] == "nodeport"@ && g[6] == "loadbalancer"@);
}

/// A status word is shown as a warning when it is updating, progressing,
/// pending, scheduled, suspended or scaled.
pub proof fn lemma_warning_tone(s: Seq<char>)
    requires
        ({
            let l = ascii_lower(s);
            l == "updating"@ || l == "progressing"@ || l == "pending"@ || l == "scheduled"@ || l == "suspended"@
                || l == "scaled"@
        }),
    ensures
        tone_of(s) == StatusTone::Warning,
{
    reveal_strlit("ready");
    reveal_strlit("running");
    reveal_strlit("complete");
    reveal_strlit("active");
    reveal_strlit("clusterip");
    reveal_strlit("nodeport");
    reveal_strlit("loadbalancer");
    reveal_strlit("updating");
    reveal_strlit("progressing");
    reveal_strlit("pending");
    reveal_strlit("scheduled");
    reveal_strlit("suspended");
    reveal_strlit("scaled");
    reveal_strlit("failed");
    reveal_strlit("error");
    reveal_strlit("unavailable");
    reveal_strlit("notready");
    reveal_strlit("unknown");
    reveal_strlit("managed");
    reveal_strlit("externalname");
    let l = ascii_lower(s);
    let w = warning_statuses();
    assert(w[0] == "updating"@ && w[1] == "progressing"@ && w[2] == "pending"@);
    assert(w[3] == "scheduled"@ && w[4] == "suspended"@ && w[5] == "scaled"@);
    assert forall|i: int| 0 <= i < good_statuses().len() implies texts_apart(#[trigger] good_statuses()[i], l) by {
    }
    lemma_unlisted(l, good_statuses());
}

/// A status word is shown as bad when it is failed, error, unavailable,
/// notready or unknown.
pub proof fn lemma_bad_tone(s: Seq<char>)
    requires
        ({
            let l = ascii_lower(s);
            l == "failed"@ || l == "error"@ || l == "unavailable"@ || l == "notready"@ || l == "unknown"@
        }),
    ensures
        tone_of(s) == StatusTone::Bad,
{
    reveal_strlit("ready");
    reveal_strlit("running");
    reveal_strlit("complete");
    reveal_strlit("active");
    reveal_strlit("clusterip");
    reveal_strlit("nodeport");
    reveal_strlit("loadbalancer");
    reveal_strlit("updating");
    reveal_strlit("progressing");
    reveal_strlit("pending");
    reveal_strlit("scheduled");
    reveal_strlit("suspended");
    reveal_strlit("scaled");
    reveal_strlit("failed");
    reveal_strlit("error");
    reveal_strlit("unavailable");
    reveal_strlit("notready");
    reveal_strlit("unknown");
    reveal_strlit("managed");
    reveal_strlit("externalname");
    let l = ascii_lower(s);
    let b = bad_statuses();
    assert(b[0] == "failed"@ && b[1] == "error"@ && b[2] == "unavailable"@ && b[3] == "notready"@ && b[4]
        == "unknown"@);
    assert forall|i: int| 0 <= i < good_statuses().len() implies texts_apart(#[trigger] good_statuses()[i], l) by {
    }
    lemma_unlisted(l, good_statuses());
    assert forall|i: int| 0 <= i < warning_statuses().len() implies texts_apart(#[trigger] warning_statuses()[i], l) by {
    }
    lemma_unlisted(l, warning_statuses());
}

/// A status word is shown as information when it is managed or
/// externalname (the ExternalName Service type).
pub proof fn lemma_info_tone(s: Seq<char>)
    requires
        ascii_lower(s) == "managed"@ || ascii_lower(s) == "externalname"@,
    ensures
        tone_of(s) == StatusTone::Info,
{
    reveal_strlit("ready");
    reveal_strlit("running");
    reveal_strlit("complete");
    reveal_strlit("active");
    reveal_strlit("clusterip");
    reveal_strlit("nodeport");
    reveal_strlit("loadbalancer");
    reveal_strlit("updating");
    reveal_strlit("progressing");
    reveal_strlit("pending");
    reveal_strlit("scheduled");
    reveal_strlit("suspended");
    reveal_strlit("scaled");
    reveal_strlit("failed");
    reveal_strlit("error");
    reveal_strlit("unavailable");
    reveal_strlit("notready");
    reveal_strlit("unknown");
    reveal_strlit("managed");
    reveal_strlit("externalname");
    let l = ascii_lower(s);
    assert(info_statuses()[0] == "managed"@ && info_statuses()[1] == "externalname"@);
    assert forall|i: int| 0 <= i < good_statuses().len() implies texts_apart(#[trigger] good_statuses()[i], l) by {
    }
    lemma_unlisted(l, good_statuses());
    assert forall|i: int| 0 <= i < warning_statuses().len() implies texts_apart(#[trigger] warning_statuses()[i], l) by {
    }
    lemma_unlisted(l, warning_statuses());
    assert forall|i: int| 0 <= i < bad_statuses().len() implies texts_apart(#[trigger] bad_statuses()[i], l) by {
    }
    lemma_unlisted(l, bad_statuses());
}

/// Any other status word is shown in the neutral tone.
pub proof fn lemma_neutral_tone(s: Seq<char>)
    requires
        ({
            let l = ascii_lower(s);
            !(l == "ready"@ || l == "running"@ || l == "complete"@ || l == "active"@ || l == "clusterip"@
                || l == "nodeport"@ || l == "loadbalancer"@ || l == "updating"@ || l == "progressing"@ || l
                == "pending"@ || l == "scheduled"@ || l == "suspended"@ || l == "scaled"@ || l == "failed"@
                || l == "error"@ || l == "unavailable"@ || l == "notready"@ || l == "unknown"@ || l
                == "managed"@ || l == "externalname"@)
        }),
    ensures
        tone_of(s) == StatusTone::Neutral,
{
    let l = ascii_lower(s);
    assert forall|i: int| 0 <= i < good_statuses().len() implies good_statuses()[i] != l by {
    }
    assert forall|i: int| 0 <= i < warning_statuses().len() implies warning_statuses()[i] != l by {
    }
    assert forall|i: int| 0 <= i < bad_statuses().len() implies bad_statuses()[i] != l by {
    }
    assert forall|i: int| 0 <= i < info_statuses().len() implies info_statuses()[i] != l by {
    }
}

/// Each Pod phase Running, Pending, Succeeded and Failed has its own class,
/// "pod-state-" and the phase in lower case; any other phase is shown as
/// unknown.
pub proof fn lemma_pod_state_classes(state: Seq<char>)
    ensures
        (state == "Running"@ || state == "Pending"@ || state == "Succeeded"@ || state == "Failed"@)
            ==> pod_state_class(state) == "pod-state-"@ + ascii_lower(state),
        !(state == "Running"@ || state == "Pending"@ || state == "Succeeded"@ || state == "Failed"@)
            ==> pod_state_class(state) == "pod-state-unknown"@,
{
    reveal_strlit("Running");
    reveal_strlit("Pending");
    reveal_strlit("Succeeded");
    reveal_strlit("Failed");
    reveal_strlit("pod-state-");
    reveal_strlit("pod-state-running");
    reveal_strlit("pod-state-pending");
    reveal_strlit("pod-state-succeeded");
    reveal_strlit("pod-state-failed");
    if state == "Running"@ || state == "Pending"@ || state == "Succeeded"@ || state == "Failed"@ {
        assert(pod_state_class(state) =~= "pod-state-"@ + ascii_lower(state));
    }
}

} // verus!
