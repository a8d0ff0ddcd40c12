use aetheris_app::pods::{
    default_log_container_index, default_terminal_container, pod_log_target, PodLogTarget,
};
use aetheris_app::resource::{pod_resource_kind, ResourceKind, ResourceScope};

fn deployment() -> ResourceKind {
    ResourceKind {
        group: String::from("apps"),
        version: String::from("v1"),
        api_version: String::from("apps/v1"),
        kind: String::from("Deployment"),
        plural: String::from("deployments"),
        scope: ResourceScope::Namespaced,
    }
}

#[test]
fn pod_log_target_needs_a_pod_in_a_namespace() {
    let target = pod_log_target(
        String::from("prod"),
        &pod_resource_kind(),
        Some(String::from("team-a")),
        String::from("web-1"),
    )
    .unwrap();
    assert_eq!(target.context, "prod");
    assert_eq!(target.namespace, "team-a");
    assert_eq!(target.pod, "web-1");
    assert!(target.containers.is_empty());

    let pod = pod_resource_kind();
    assert!(pod_log_target(String::from("prod"), &deployment(), Some(String::from("a")), String::from("web")).is_none());
    assert!(pod_log_target(String::from("prod"), &pod, None, String::from("web")).is_none());
    assert!(pod_log_target(String::from("prod"), &pod, Some(String::new()), String::from("web")).is_none());
    assert!(pod_log_target(String::from("prod"), &pod, Some(String::from("-")), String::from("web")).is_none());
}

#[test]
fn default_log_container_prefers_the_one_the_pod_is_named_after() {
    let containers = vec![
        String::from("istio-proxy"),
        String::from("web"),
        String::from("sidecar"),
    ];
    assert_eq!(default_log_container_index("web-7d9f-abcde", &containers), 1);
    assert_eq!(default_log_container_index("sidecar", &containers), 2);
    assert_eq!(default_log_container_index("other", &containers), 0);
    assert_eq!(default_log_container_index("web", &[]), 0);
}

#[test]
fn default_terminal_container_follows_the_log_default() {
    let mut target = PodLogTarget {
        context: String::from("prod"),
        namespace: String::from("team-a"),
        pod: String::from("api-5c4-x1"),
        containers: Vec::new(),
    };
    assert_eq!(default_terminal_container(&target), None);
    target.containers = vec![String::from("envoy"), String::from("api")];
    assert_eq!(default_terminal_container(&target), Some(String::from("api")));
    target.pod = String::from("unrelated");
    assert_eq!(default_terminal_container(&target), Some(String::from("envoy")));
}
