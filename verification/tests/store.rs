use aetheris_app::columns::{
    default_object_columns, ObjectColumn, ObjectTableColumn, OBJECT_COLUMN_MIN_WIDTH,
    OBJECT_NAME_MIN_WIDTH,
};
use aetheris_app::favorite::DetailTarget;
use aetheris_app::project::{ContextNamespaces, Project};
use aetheris_app::resource::{ResourceKind, ResourceScope};
use aetheris_app::store::{
    ContextInfo, ContextNamespaceSelection, ProjectStore, OBJECT_COLUMN_SCHEMA_VERSION,
};

fn context(name: &str) -> ContextInfo {
    ContextInfo {
        name: name.to_owned(),
        cluster: name.to_owned(),
        server: String::from("https://example.com:6443"),
        host: String::from("example.com"),
        user: format!("{name}-user"),
        is_current: false,
        insecure_skip_tls_verify: false,
    }
}

fn resource(group: &str, kind: &str) -> ResourceKind {
    ResourceKind {
        group: group.to_owned(),
        version: String::from("v1"),
        api_version: if group.is_empty() {
            String::from("v1")
        } else {
            format!("{group}/v1")
        },
        kind: kind.to_owned(),
        plural: format!("{}s", kind.to_ascii_lowercase()),
        scope: ResourceScope::Namespaced,
    }
}

#[test]
fn normalize_contexts_does_not_import_external_contexts() {
    let mut store = ProjectStore {
        projects: vec![Project {
            name: String::from("Work"),
            contexts: vec![String::from("local")],
            custom_namespaces_by_context: Vec::new(),
        }],
        selected_project: Some(String::from("Work")),
        last_namespaces_by_context: Vec::new(),
        object_column_schema_version: OBJECT_COLUMN_SCHEMA_VERSION,
        visible_object_columns: default_object_columns(),
        object_name_width: None,
        object_column_widths: Vec::new(),
        favorite_objects: Vec::new(),
    };

    store.normalize_contexts(&[context("local"), context("external")]);

    let project = store.selected_project().unwrap();
    assert_eq!(project.contexts, vec![String::from("local")]);
}

#[test]
fn normalize_contexts_keeps_empty_store_empty() {
    let mut store = ProjectStore::empty();

    store.normalize_contexts(&[context("prod")]);

    assert!(store.projects.is_empty());
    assert_eq!(store.selected_project, None);
}

#[test]
fn normalize_contexts_keeps_saved_contexts_when_live_list_is_empty() {
    let mut store = ProjectStore {
        projects: vec![Project {
            name: String::from("Work"),
            contexts: vec![String::from("prod"), String::from("stage")],
            custom_namespaces_by_context: vec![ContextNamespaces {
                context: String::from("prod"),
                namespaces: vec![String::from("billing")],
            }],
        }],
        selected_project: Some(String::from("Work")),
        last_namespaces_by_context: vec![ContextNamespaceSelection {
            context: String::from("prod"),
            namespace: String::from("team-a"),
        }],
        object_column_schema_version: OBJECT_COLUMN_SCHEMA_VERSION,
        visible_object_columns: default_object_columns(),
        object_name_width: None,
        object_column_widths: Vec::new(),
        favorite_objects: Vec::new(),
    };

    store.normalize_contexts(&[]);

    let project = store.selected_project().unwrap();
    assert_eq!(
        project.contexts,
        vec![String::from("prod"), String::from("stage")]
    );
    assert_eq!(
        project.custom_namespaces_for_context(Some("prod")),
        vec![String::from("billing")]
    );
    assert_eq!(
        store.last_namespace_for_context(Some("prod")),
        Some("team-a")
    );
}

#[test]
fn last_namespace_is_stored_by_context() {
    let mut store = ProjectStore::default();

    assert!(store.set_last_namespace_for_context("prod", "team-a"));
    assert_eq!(
        store.last_namespace_for_context(Some("prod")),
        Some("team-a")
    );
    assert!(!store.set_last_namespace_for_context("prod", "team-a"));
    assert!(store.set_last_namespace_for_context("prod", "team-b"));
    assert_eq!(
        store.last_namespace_for_context(Some("prod")),
        Some("team-b")
    );
    assert_eq!(store.last_namespaces_by_context.len(), 1);
}

#[test]
fn object_table_columns_have_no_maximum_width() {
    let mut store = ProjectStore::default();
    let wide = 10_000;

    assert!(store.set_object_column_width(ObjectColumn::Image, wide));
    assert_eq!(store.object_column_width(ObjectColumn::Image), wide);

    assert!(store.set_object_column_width(ObjectColumn::Namespace, wide));
    assert_eq!(store.object_column_width(ObjectColumn::Namespace), wide);

    assert!(store.set_object_table_column_width(ObjectTableColumn::Name, wide));
    assert_eq!(store.object_name_width(), wide);
}

#[test]
fn object_table_columns_keep_minimum_width() {
    let mut store = ProjectStore::default();

    assert!(store.set_object_column_width(ObjectColumn::Image, 0));
    assert_eq!(
        store.object_column_width(ObjectColumn::Image),
        OBJECT_COLUMN_MIN_WIDTH
    );

    assert!(store.set_object_table_column_width(ObjectTableColumn::Name, 0));
    assert_eq!(store.object_name_width(), OBJECT_NAME_MIN_WIDTH);
}

#[test]
fn toggle_object_favorite_tracks_object_by_context_resource_namespace_and_name() {
    let mut store = ProjectStore::default();
    let target = DetailTarget {
        context: String::from("prod"),
        resource: resource("apps", "Deployment"),
        namespace: Some(String::from("my-namespace")),
        name: String::from("sample-deploy"),
    };

    assert!(!store.is_object_favorite(&target));
    assert!(store.toggle_object_favorite(&target));
    assert!(store.is_object_favorite(&target));
    assert_eq!(
        store.favorite_objects_for_context("prod")[0].kind(),
        "Deployment"
    );

    assert!(store.toggle_object_favorite(&target));
    assert!(!store.is_object_favorite(&target));
}

#[test]
fn normalize_contexts_prunes_last_namespaces_for_deleted_contexts() {
    let mut store = ProjectStore {
        projects: vec![Project {
            name: String::from("Work"),
            contexts: vec![String::from("prod")],
            custom_namespaces_by_context: Vec::new(),
        }],
        selected_project: Some(String::from("Work")),
        last_namespaces_by_context: vec![
            ContextNamespaceSelection {
                context: String::from("prod"),
                namespace: String::from("team-a"),
            },
            ContextNamespaceSelection {
                context: String::from("external"),
                namespace: String::from("team-b"),
            },
        ],
        object_column_schema_version: OBJECT_COLUMN_SCHEMA_VERSION,
        visible_object_columns: default_object_columns(),
        object_name_width: None,
        object_column_widths: Vec::new(),
        favorite_objects: Vec::new(),
    };

    store.normalize_last_namespaces(&[context("prod")]);

    assert_eq!(
        store.last_namespace_for_context(Some("prod")),
        Some("team-a")
    );
    assert_eq!(store.last_namespace_for_context(Some("external")), None);
}
