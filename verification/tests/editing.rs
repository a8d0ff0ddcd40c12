use aetheris_app::editing::ProjectNameError;
use aetheris_app::project::Project;
use aetheris_app::store::{ContextInfo, ProjectStore};

fn project(name: &str, contexts: &[&str]) -> Project {
    Project {
        name: name.to_owned(),
        contexts: contexts.iter().map(|c| c.to_string()).collect(),
        custom_namespaces_by_context: Vec::new(),
    }
}

fn store(projects: Vec<Project>, selected: Option<&str>) -> ProjectStore {
    let mut store = ProjectStore::empty();
    store.projects = projects;
    store.selected_project = selected.map(|s| s.to_owned());
    store
}

fn context(name: &str) -> ContextInfo {
    ContextInfo {
        name: name.to_owned(),
        cluster: name.to_owned(),
        server: String::from("https://example.com:6443"),
        host: String::from("example.com"),
        user: format!("{name}-user"),
        is_current: false,
        insecure_skip_tls_verify: false,
    }
}

fn names(store: &ProjectStore) -> Vec<String> {
    store.projects.iter().map(|p| p.name.clone()).collect()
}

#[test]
fn add_project_trims_refuses_blank_and_taken_names() {
    let mut s = ProjectStore::default();
    assert_eq!(s.add_project("   "), Err(ProjectNameError::Blank));
    assert_eq!(s.add_project(" Default "), Err(ProjectNameError::Taken));
    assert_eq!(s.add_project("  Work "), Ok(String::from("Work")));
    assert_eq!(names(&s), vec!["Default", "Work"]);
    assert_eq!(s.selected_project_name(), "Work");
    assert!(s.selected_project().unwrap().contexts.is_empty());
}

#[test]
fn rename_project_keeps_the_selection() {
    let mut s = store(vec![project("Work", &["prod"]), project("Home", &[])], Some("Work"));
    assert_eq!(s.rename_project("Work", "Home"), Err(ProjectNameError::Taken));
    assert_eq!(s.rename_project("Work", " "), Err(ProjectNameError::Blank));
    assert_eq!(s.rename_project("Work", "Work"), Ok(String::from("Work")));
    assert_eq!(s.rename_project("Work", " Job "), Ok(String::from("Job")));
    assert_eq!(names(&s), vec!["Job", "Home"]);
    assert_eq!(s.selected_project_name(), "Job");
    assert_eq!(s.selected_project().unwrap().contexts, vec![String::from("prod")]);
    assert_eq!(s.rename_project("Home", "House"), Ok(String::from("House")));
    assert_eq!(s.selected_project_name(), "Job");
}

#[test]
fn select_project_at_reports_changes() {
    let mut s = store(vec![project("A", &[]), project("B", &[])], Some("A"));
    assert_eq!(s.select_project_at(5), None);
    assert_eq!(s.select_project_at(0), Some(false));
    assert_eq!(s.select_project_at(1), Some(true));
    assert_eq!(s.selected_project_name(), "B");
}

#[test]
fn delete_selected_project_selects_the_first_left() {
    let mut s = store(vec![project("A", &[]), project("B", &[]), project("C", &[])], Some("B"));
    assert!(s.can_delete_project());
    s.delete_selected_project();
    assert_eq!(names(&s), vec!["A", "C"]);
    assert_eq!(s.selected_project_name(), "A");
    let mut single = ProjectStore::default();
    assert!(!single.can_delete_project());
    single.delete_selected_project();
    assert!(single.projects.is_empty());
    assert_eq!(single.selected_project, None);
}

#[test]
fn duplicate_project_finds_a_free_copy_name() {
    let mut s = store(
        vec![project("Work", &["prod"]), project("Work copy", &[])],
        Some("Work"),
    );
    assert_eq!(s.duplicate_selected_project("{name} copy", "{name} copy {suffix}"), Some(String::from("Work copy 2")));
    assert_eq!(names(&s), vec!["Work", "Work copy", "Work copy 2"]);
    assert_eq!(s.selected_project_name(), "Work copy 2");
    assert_eq!(s.selected_project().unwrap().contexts, vec![String::from("prod")]);
    let mut none = ProjectStore::empty();
    assert_eq!(none.duplicate_selected_project("{name} copy", "{name} copy {suffix}"), None);
}

#[test]
fn duplicate_project_keeps_counting_until_a_name_is_free() {
    let mut s = store(vec![project("2", &[]), project("3", &[])], Some("2"));
    assert_eq!(s.duplicate_selected_project("{name}", "{suffix}"), Some(String::from("4")));
    assert_eq!(names(&s), vec!["2", "3", "4"]);
    assert_eq!(s.selected_project_name(), "4");
    let mut t = store(vec![project("A", &[]), project("B", &[])], Some("A"));
    assert_eq!(
        t.duplicate_selected_project("{name}-{name}", "x"),
        Some(String::from("A-A"))
    );
}

#[test]
fn namespaces_known_and_preferred() {
    let mut s = store(vec![project("Work", &["prod"])], Some("Work"));
    let mut namespaces = vec![String::from("default"), String::from("kube-system")];
    assert!(s.namespace_is_known(&namespaces, Some("prod"), "default"));
    assert!(!s.namespace_is_known(&namespaces, Some("prod"), "billing"));
    assert!(s.remember_namespace(&mut namespaces, Some("prod"), "billing"));
    assert_eq!(namespaces.len(), 3);
    assert!(!s.remember_namespace(&mut namespaces, Some("prod"), "billing"));
    assert!(!s.remember_namespace(&mut namespaces, Some("prod"), "all"));
    assert!(s.namespace_is_known(&vec![], Some("prod"), "billing"));

    assert_eq!(s.preferred_namespace(&namespaces, Some("prod"), "all"), "default");
    s.set_last_namespace_for_context("prod", "billing");
    assert_eq!(s.preferred_namespace(&vec![], Some("prod"), "all"), "billing");
    s.set_last_namespace_for_context("prod", "gone");
    assert_eq!(s.preferred_namespace(&namespaces, Some("prod"), "all"), "default");
    assert_eq!(s.preferred_namespace(&vec![], None, "all"), "all");
}

#[test]
fn project_contexts_lists_the_selected_projects_clusters() {
    let contexts = [context("prod"), context("stage"), context("dev")];
    let s = store(vec![project("Work", &["dev", "prod"])], Some("Work"));
    assert_eq!(s.project_contexts(&contexts), vec![0, 2]);
    let unselected = store(vec![project("Work", &["dev"])], None);
    assert_eq!(unselected.project_contexts(&contexts), vec![0, 1, 2]);
    assert!(ProjectStore::empty().project_contexts(&contexts).is_empty());
}
