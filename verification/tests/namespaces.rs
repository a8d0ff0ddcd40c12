use aetheris_app::namespaces::{custom_namespace_initial_text, namespace_choices, with_all_namespace};

fn strings(items: &[&str]) -> Vec<String> {
    items.iter().map(|item| item.to_string()).collect()
}

#[test]
fn custom_namespace_entry_starts_blank_for_all() {
    assert_eq!(custom_namespace_initial_text("all"), "");
    assert_eq!(custom_namespace_initial_text("team-a"), "team-a");
}

#[test]
fn with_all_namespace_sorts_dedups_and_puts_all_first() {
    assert_eq!(
        with_all_namespace(strings(&["kube-system", "all", "default", "default"])),
        strings(&["all", "default", "kube-system"])
    );
    assert_eq!(with_all_namespace(Vec::new()), strings(&["all"]));
}

#[test]
fn namespace_choices_merge_known_custom_and_selected() {
    let known = strings(&["all", "default", "kube-system"]);
    let custom = strings(&["billing", "default"]);
    assert_eq!(
        namespace_choices(&known, &custom, "team-x"),
        strings(&["all", "billing", "default", "kube-system", "team-x"])
    );
    assert_eq!(
        namespace_choices(&known, &custom, "default"),
        strings(&["all", "billing", "default", "kube-system"])
    );
    assert_eq!(
        namespace_choices(&strings(&["b", "a"]), &Vec::new(), ""),
        strings(&["a", "b"])
    );
}
