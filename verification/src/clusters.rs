//! How the cluster list shows each cluster's reachability: the state chip
//! and the line under the cluster's name.

use vstd::prelude::*;
use crate::favorite::optional_view;
use crate::status::StatusTone;
use crate::text::push_str;

verus! {

/// What a reachable cluster reports about itself.
#[derive(Debug, Clone)]
pub struct ClusterSummary {
    pub provider: Option<String>,
    pub version: Option<String>,
}

/// Where loading a cluster's summary stands.
#[derive(Debug, Clone)]
pub enum ClusterSummaryState {
    Loading,
    Loaded(ClusterSummary),
    Error(String),
}

/// The state chip of a cluster: its text (as the message that the
/// interface translates), its tone and, for an unreachable cluster, the
/// error as tooltip.
#[derive(Debug, Clone)]
pub struct ClusterStateChip {
    pub label: &'static str,
    pub tone: StatusTone,
    pub tooltip: Option<String>,
}

/// The chip of a cluster whose summary is `summary` (none yet: checking).
pub fn cluster_state_chip(summary: Option<&ClusterSummaryState>) -> (r: ClusterStateChip)
    ensures
        match summary {
            None | Some(ClusterSummaryState::Loading) => r.label@ == "Checking..."@
                && r.tone == StatusTone::Neutral && r.tooltip is None,
            Some(ClusterSummaryState::Loaded(_)) => r.label@ == "Active"@ && r.tone == StatusTone::Good
                && r.tooltip is None,
            Some(ClusterSummaryState::Error(e)) => r.label@ == "Unreachable"@ && r.tone
                == StatusTone::Bad && optional_view(r.tooltip) == Some(e@),
        },
{
    match summary {
        None | Some(ClusterSummaryState::Loading) => ClusterStateChip {
            label: "Checking...",
            tone: StatusTone::Neutral,
            tooltip: None,
        },
        Some(ClusterSummaryState::Loaded(_)) => ClusterStateChip {
            label: "Active",
            tone: StatusTone::Good,
            tooltip: None,
        },
        Some(ClusterSummaryState::Error(error)) => ClusterStateChip {
            label: "Unreachable",
            tone: StatusTone::Bad,
            tooltip: Some(error.clone()),
        },
    }
}

/// The provider and version a cluster reported, joined by " · "; none when
/// it reported neither.
pub open spec fn summary_details_of(provider: Option<Seq<char>>, version: Option<Seq<char>>) -> Option<Seq<char>> {
    match (provider, version) {
        (Some(p), Some(v)) => Some(p + " · "@ + v),
        (Some(p), None) => Some(p),
        (None, Some(v)) => Some(v),
        (None, None) => None,
    }
}

/// The provider and version of a reachable cluster, joined by " · ".
pub fn summary_details(summary: &ClusterSummary) -> (r: Option<String>)
    ensures
        optional_view(r) == summary_details_of(optional_view(summary.provider), optional_view(summary.version)),
{
    match (&summary.provider, &summary.version) {
        (Some(p), Some(v)) => {
            let mut r = p.clone();
            push_str(&mut r, " · ");
            push_str(&mut r, v.as_str());
            Some(r)
        },
        (Some(p), None) => Some(p.clone()),
        (None, Some(v)) => Some(v.clone()),
        (None, None) => None,
    }
}

/// The line under a cluster's name: what it reported about itself, or,
/// already translated, `checking` while loading, `unreachable` when it
/// could not be reached and `fallback` when it reported nothing.
pub fn cluster_subtitle_text(
    summary: Option<&ClusterSummaryState>,
    checking: &str,
    unreachable: &str,
    fallback: &str,
) -> (r: String)
    ensures
        match summary {
            None | Some(ClusterSummaryState::Loading) => r@ == checking@,
            Some(ClusterSummaryState::Error(_)) => r@ == unreachable@,
            Some(ClusterSummaryState::Loaded(data)) => match summary_details_of(
                optional_view(data.provider),
                optional_view(data.version),
            ) {
                Some(d) => r@ == d,
                None => r@ == fallback@,
            },
        },
{
    match summary {
        None | Some(ClusterSummaryState::Loading) => checking.to_owned(),
        Some(ClusterSummaryState::Error(_)) => unreachable.to_owned(),
        Some(ClusterSummaryState::Loaded(data)) => match summary_details(data) {
            Some(d) => d,
            None => fallback.to_owned(),
        },
    }
}

} // verus!
