use aetheris_app::columns::{
    clamp_table_column_width, default_object_columns, ObjectColumn, ObjectTableColumn,
    OBJECT_COLUMN_MIN_WIDTH, OBJECT_NAME_MIN_WIDTH,
};
use aetheris_app::resource::{
    grouped_resources, is_deployment_resource, is_node_resource, offerable_columns_for,
    pod_resource_kind, resource_icon_name, select_default_resource, supports_metrics,
    supports_status_ratio, ResourceKind, ResourceScope, ResourceSection,
};

fn kind(group: &str, kind: &str, scope: ResourceScope) -> ResourceKind {
    ResourceKind {
        group: group.to_owned(),
        version: String::from("v1"),
        api_version: if group.is_empty() {
            String::from("v1")
        } else {
            format!("{group}/v1")
        },
        kind: kind.to_owned(),
        plural: format!("{}s", kind.to_ascii_lowercase()),
        scope,
    }
}

#[test]
fn sections_classify_resource_kinds() {
    let deployment = kind("apps", "Deployment", ResourceScope::Namespaced);
    let service = kind("", "Service", ResourceScope::Namespaced);
    let node = kind("", "Node", ResourceScope::Cluster);
    let widget = kind("example.com", "Widget", ResourceScope::Namespaced);
    assert_eq!(ResourceSection::for_resource(&deployment), ResourceSection::Workloads);
    assert_eq!(ResourceSection::for_resource(&service), ResourceSection::Network);
    assert_eq!(ResourceSection::for_resource(&node), ResourceSection::Cluster);
    assert_eq!(ResourceSection::for_resource(&widget), ResourceSection::Custom);
    assert!(ResourceSection::Custom.matches(&widget));
    assert!(!ResourceSection::Custom.matches(&deployment));
    assert_eq!(ResourceSection::Workloads.label(), "Workloads");
}

#[test]
fn grouped_resources_lists_each_section_that_has_kinds() {
    let resources = vec![
        kind("", "Service", ResourceScope::Namespaced),
        kind("apps", "Deployment", ResourceScope::Namespaced),
        kind("example.com", "Widget", ResourceScope::Namespaced),
        pod_resource_kind(),
    ];
    let groups = grouped_resources(&resources);
    assert_eq!(
        groups,
        vec![
            (ResourceSection::Workloads, vec![1, 3]),
            (ResourceSection::Network, vec![0]),
            (ResourceSection::Custom, vec![2]),
        ]
    );
    assert!(grouped_resources(&[]).is_empty());
}

#[test]
fn resource_predicates() {
    let deployment = kind("apps", "Deployment", ResourceScope::Namespaced);
    let node = kind("", "Node", ResourceScope::Cluster);
    let job = kind("batch", "Job", ResourceScope::Namespaced);
    assert!(is_deployment_resource(&deployment));
    assert!(is_node_resource(&node));
    assert!(!is_node_resource(&kind("x.io", "Node", ResourceScope::Cluster)));
    assert!(supports_status_ratio(&job));
    assert!(!supports_status_ratio(&node));
    assert!(supports_metrics(&node));
    assert!(supports_metrics(&pod_resource_kind()));
    assert!(!supports_metrics(&deployment));
    assert_eq!(resource_icon_name(&pod_resource_kind()), "lucide-box-symbolic");
    assert_eq!(resource_icon_name(&deployment), "lucide-layers-3-symbolic");
    assert_eq!(resource_icon_name(&job), "lucide-cloud-cog-symbolic");
    assert_eq!(
        resource_icon_name(&kind("example.com", "Widget", ResourceScope::Namespaced)),
        "lucide-blocks-symbolic"
    );
}

#[test]
fn offerable_columns_depend_on_the_kind() {
    let all = offerable_columns_for(None);
    assert!(all.contains(&ObjectColumn::Namespace));
    assert!(!all.contains(&ObjectColumn::Status));
    assert!(!all.contains(&ObjectColumn::Cpu));
    let deployment = kind("apps", "Deployment", ResourceScope::Namespaced);
    let columns = offerable_columns_for(Some(&deployment));
    assert!(columns.contains(&ObjectColumn::Status));
    assert!(columns.contains(&ObjectColumn::Namespace));
    assert!(!columns.contains(&ObjectColumn::Memory));
}

#[test]
fn default_resource_prefers_pods() {
    let resources = vec![
        kind("apps", "Deployment", ResourceScope::Namespaced),
        pod_resource_kind(),
    ];
    assert_eq!(select_default_resource(&resources), Some(1));
    assert_eq!(select_default_resource(&resources[..1]), Some(0));
    assert_eq!(select_default_resource(&[]), None);
}

#[test]
fn columns_and_widths() {
    let columns = default_object_columns();
    assert_eq!(columns.len(), 10);
    assert_eq!(columns[0], ObjectColumn::Image);
    assert_eq!(ObjectColumn::IngressClass.label(), "Ingress Class");
    assert_eq!(ObjectColumn::Namespace.default_width(), 132);
    assert_eq!(
        clamp_table_column_width(ObjectTableColumn::Name, 10),
        OBJECT_NAME_MIN_WIDTH
    );
    assert_eq!(
        clamp_table_column_width(ObjectTableColumn::Data(ObjectColumn::Age), 10),
        OBJECT_COLUMN_MIN_WIDTH
    );
    assert_eq!(
        clamp_table_column_width(ObjectTableColumn::Data(ObjectColumn::Age), 900),
        900
    );
}
