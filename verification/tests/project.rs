use aetheris_app::project::Project;

#[test]
fn custom_namespaces_are_scoped_by_context() {
    let mut project = Project {
        name: String::from("Work"),
        contexts: vec![String::from("prod"), String::from("stage")],
        custom_namespaces_by_context: Vec::new(),
    };

    assert!(project.add_custom_namespace("prod", "billing"));

    assert_eq!(
        project.custom_namespaces_for_context(Some("prod")),
        vec![String::from("billing")]
    );
    assert!(
        project
            .custom_namespaces_for_context(Some("stage"))
            .is_empty()
    );
    assert!(!project.has_custom_namespace(Some("stage"), "billing"));
}

#[test]
fn remove_custom_namespace_drops_empty_context_entry() {
    let mut project = Project {
        name: String::from("Work"),
        contexts: vec![String::from("prod")],
        custom_namespaces_by_context: Vec::new(),
    };
    project.add_custom_namespace("prod", "billing");

    assert!(project.remove_custom_namespace("prod", "billing"));
    assert!(
        project
            .custom_namespaces_for_context(Some("prod"))
            .is_empty()
    );
    assert!(project.custom_namespaces_by_context.is_empty());
}

#[test]
fn remove_custom_namespace_returns_false_when_not_found() {
    let mut project = Project {
        name: String::from("Work"),
        contexts: vec![String::from("prod")],
        custom_namespaces_by_context: Vec::new(),
    };
    project.add_custom_namespace("prod", "billing");

    assert!(!project.remove_custom_namespace("prod", "not-there"));
    assert!(!project.remove_custom_namespace("other-context", "billing"));
    assert_eq!(
        project.custom_namespaces_for_context(Some("prod")),
        vec![String::from("billing")]
    );
}

#[test]
fn rename_custom_namespace_replaces_entry_in_place() {
    let mut project = Project {
        name: String::from("Work"),
        contexts: vec![String::from("prod")],
        custom_namespaces_by_context: Vec::new(),
    };
    project.add_custom_namespace("prod", "billing");

    assert!(project.rename_custom_namespace("prod", "billing", "payments"));
    assert_eq!(
        project.custom_namespaces_for_context(Some("prod")),
        vec![String::from("payments")]
    );
    assert!(!project.has_custom_namespace(Some("prod"), "billing"));
}

#[test]
fn rename_custom_namespace_no_ops_when_target_name_already_exists() {
    let mut project = Project {
        name: String::from("Work"),
        contexts: vec![String::from("prod")],
        custom_namespaces_by_context: Vec::new(),
    };
    project.add_custom_namespace("prod", "billing");
    project.add_custom_namespace("prod", "payments");

    assert!(!project.rename_custom_namespace("prod", "billing", "payments"));
    assert_eq!(
        project.custom_namespaces_for_context(Some("prod")),
        vec![String::from("billing"), String::from("payments")]
    );
}

#[test]
fn rename_custom_namespace_returns_false_when_source_missing() {
    let mut project = Project {
        name: String::from("Work"),
        contexts: vec![String::from("prod")],
        custom_namespaces_by_context: Vec::new(),
    };

    assert!(!project.rename_custom_namespace("prod", "billing", "payments"));
}
