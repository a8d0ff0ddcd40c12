use aetheris_app::status::{
    has_meaningful_status, pod_state_css_class, status_filter_tone, status_tone, StatusFilter,
    StatusTone,
};

#[test]
fn status_filter_matches_the_first_word_ignoring_case() {
    assert!(StatusFilter::Running.matches("Running"));
    assert!(StatusFilter::Running.matches("running 2/2"));
    assert!(StatusFilter::Ready.matches("  READY  1/1"));
    assert!(!StatusFilter::Ready.matches("NotReady"));
    assert!(!StatusFilter::Pending.matches(""));
    assert!(!StatusFilter::Failed.matches("Job Failed"));
}

#[test]
fn status_filters_with_every_filter_pass_everything() {
    let all = StatusFilter::default_filters();
    assert_eq!(all.len(), 6);
    assert!(StatusFilter::matches_any("CrashLoopBackOff", &all));
    assert!(StatusFilter::matches_any("", &all));
}

#[test]
fn status_filters_narrow_to_the_selected_keywords() {
    let selected = vec![StatusFilter::Running, StatusFilter::Pending];
    assert!(StatusFilter::matches_any("Running", &selected));
    assert!(StatusFilter::matches_any("pending 0/1", &selected));
    assert!(!StatusFilter::matches_any("Failed", &selected));
    assert!(!StatusFilter::matches_any("Running", &[]));
}

#[test]
fn status_filter_keywords_and_labels() {
    assert_eq!(StatusFilter::Unavailable.keyword(), "Unavailable");
    assert_eq!(StatusFilter::Available.label(), "Available");
    assert_eq!(StatusFilter::all()[0], StatusFilter::Ready);
    assert_eq!(StatusFilter::all()[5], StatusFilter::Failed);
}

#[test]
fn status_tone_classifies_status_words() {
    assert_eq!(status_tone("Running"), StatusTone::Good);
    assert_eq!(status_tone("LoadBalancer"), StatusTone::Good);
    assert_eq!(status_tone("Progressing"), StatusTone::Warning);
    assert_eq!(status_tone("NotReady"), StatusTone::Bad);
    assert_eq!(status_tone("ExternalName"), StatusTone::Info);
    assert_eq!(status_tone("CrashLoopBackOff"), StatusTone::Neutral);
    assert_eq!(status_tone("Running 1/1"), StatusTone::Neutral);
    assert_eq!(StatusTone::Bad.css_class(), "status-bad");
    assert_eq!(StatusTone::Neutral.css_class(), "status-neutral");
}

#[test]
fn status_filter_tones() {
    assert_eq!(status_filter_tone(StatusFilter::Available), StatusTone::Good);
    assert_eq!(status_filter_tone(StatusFilter::Unavailable), StatusTone::Warning);
    assert_eq!(status_filter_tone(StatusFilter::Failed), StatusTone::Bad);
}

#[test]
fn meaningful_status_and_pod_state_classes() {
    assert!(has_meaningful_status("Running"));
    assert!(!has_meaningful_status(""));
    assert!(!has_meaningful_status("-"));
    assert_eq!(pod_state_css_class("Succeeded"), "pod-state-succeeded");
    assert_eq!(pod_state_css_class("running"), "pod-state-unknown");
    assert_eq!(pod_state_css_class("Failed"), "pod-state-failed");
}
