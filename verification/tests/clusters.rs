use aetheris_app::clusters::{
    cluster_state_chip, cluster_subtitle_text, summary_details, ClusterSummary,
    ClusterSummaryState,
};
use aetheris_app::status::StatusTone;

#[test]
fn cluster_state_chip_follows_the_summary() {
    let chip = cluster_state_chip(None);
    assert_eq!(chip.label, "Checking...");
    assert_eq!(chip.tone, StatusTone::Neutral);
    let loaded = ClusterSummaryState::Loaded(ClusterSummary { provider: None, version: None });
    assert_eq!(cluster_state_chip(Some(&loaded)).tone, StatusTone::Good);
    let error = ClusterSummaryState::Error(String::from("dial tcp: timeout"));
    let chip = cluster_state_chip(Some(&error));
    assert_eq!(chip.label, "Unreachable");
    assert_eq!(chip.tone, StatusTone::Bad);
    assert_eq!(chip.tooltip.as_deref(), Some("dial tcp: timeout"));
}

fn subtitle(summary: Option<&ClusterSummaryState>) -> String {
    cluster_subtitle_text(
        summary,
        "Checking cluster...",
        "Could not reach this cluster.",
        "Kubernetes cluster",
    )
}

#[test]
fn cluster_subtitle_joins_provider_and_version() {
    let both = ClusterSummary {
        provider: Some(String::from("k3s")),
        version: Some(String::from("v1.30.2")),
    };
    assert_eq!(summary_details(&both).as_deref(), Some("k3s · v1.30.2"));
    let only_version = ClusterSummary { provider: None, version: Some(String::from("v1.29")) };
    assert_eq!(summary_details(&only_version).as_deref(), Some("v1.29"));
    assert_eq!(
        subtitle(Some(&ClusterSummaryState::Loaded(both))),
        "k3s · v1.30.2"
    );
    let neither = ClusterSummary { provider: None, version: None };
    assert_eq!(summary_details(&neither), None);
    assert_eq!(
        subtitle(Some(&ClusterSummaryState::Loaded(neither))),
        "Kubernetes cluster"
    );
    assert_eq!(subtitle(None), "Checking cluster...");
    assert_eq!(
        subtitle(Some(&ClusterSummaryState::Error(String::new()))),
        "Could not reach this cluster."
    );
}
