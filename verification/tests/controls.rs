use aetheris_app::controls::{control_sensitivity, initial_context, status_cell_text, WindowState};
use aetheris_app::resource::{ResourceKind, ResourceScope};
use aetheris_app::store::ContextInfo;

fn kind(group: &str, kind: &str, scope: ResourceScope) -> ResourceKind {
    ResourceKind {
        group: group.to_owned(),
        version: String::from("v1"),
        api_version: String::from("v1"),
        kind: kind.to_owned(),
        plural: kind.to_lowercase(),
        scope,
    }
}

fn context(name: &str, is_current: bool) -> ContextInfo {
    ContextInfo {
        name: name.to_owned(),
        cluster: name.to_owned(),
        server: String::new(),
        host: String::new(),
        user: String::new(),
        is_current,
        insecure_skip_tls_verify: false,
    }
}

#[test]
fn controls_follow_cluster_loading_and_selection() {
    let nodes = kind("", "Node", ResourceScope::Cluster);
    let deployments = kind("apps", "Deployment", ResourceScope::Namespaced);
    let idle = WindowState {
        has_context: true,
        loading: false,
        resource: Some(&nodes),
        has_visible_contexts: true,
        detail_resource: Some(&deployments),
        exec_containers: Some(0),
    };
    let c = control_sensitivity(&idle);
    assert!(c.refresh && c.create_yaml && c.search && c.cluster_menu);
    assert!(!c.namespace_menu);
    assert!(c.detail_scale && !c.detail_cordon && !c.detail_drain);
    assert!(!c.detail_terminal);
    let busy = WindowState { loading: true, exec_containers: Some(2), ..idle };
    let c = control_sensitivity(&busy);
    assert!(!c.refresh && !c.add_project && !c.detail_apply && !c.detail_terminal);
    assert!(c.cluster_back && c.cluster_menu);
    let none = WindowState {
        has_context: false,
        loading: false,
        resource: None,
        has_visible_contexts: false,
        detail_resource: Some(&nodes),
        exec_containers: Some(1),
    };
    let c = control_sensitivity(&none);
    assert!(!c.refresh && !c.namespace_menu && !c.cluster_refresh && !c.cluster_menu);
    assert!(c.detail_cordon && c.detail_drain && c.detail_terminal && c.add_cluster);
}

#[test]
fn the_current_context_opens_first() {
    let list = vec![context("a", false), context("b", true), context("c", true)];
    assert_eq!(initial_context(&list).as_deref(), Some("b"));
    let list = vec![context("a", false), context("b", false)];
    assert_eq!(initial_context(&list).as_deref(), Some("a"));
    assert_eq!(initial_context(&[]), None);
}

#[test]
fn status_cells_show_the_ratio() {
    assert_eq!(
        status_cell_text(Some((2, 3)), "Available"),
        (String::from("2/3"), Some(String::from("Available")))
    );
    assert_eq!(status_cell_text(None, "Running"), (String::new(), None));
}
