use aetheris_app::columns::ObjectColumn;
use aetheris_app::messages::forbidden_summary;
use aetheris_app::resource::{offerable_columns_for, ResourceKind, ResourceScope};

#[test]
fn forbidden_summary_extracts_just_the_resource() {
    let message = "ApiError: namespaces is forbidden: User \"system:serviceaccount:ns:sa\" \
        cannot list resource \"namespaces\" in API group \"\" at the cluster scope";

    assert_eq!(
        forbidden_summary(message).as_deref(),
        Some("namespaces is forbidden")
    );
}

#[test]
fn forbidden_summary_ignores_unrelated_messages() {
    assert_eq!(forbidden_summary("connection refused"), None);
}

#[test]
fn offerable_columns_hide_namespace_for_cluster_scoped_resources() {
    let node = ResourceKind {
        group: String::new(),
        version: String::from("v1"),
        api_version: String::from("v1"),
        kind: String::from("Node"),
        plural: String::from("nodes"),
        scope: ResourceScope::Cluster,
    };

    let columns = offerable_columns_for(Some(&node));

    assert!(!columns.contains(&ObjectColumn::Namespace));
    assert!(columns.contains(&ObjectColumn::Cpu));
    assert!(columns.contains(&ObjectColumn::Memory));
}
