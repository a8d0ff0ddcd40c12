use aetheris_app::messages::{
    format_error, format_error_message, project_context_count, resource_count_label,
    terminal_error_message, tr_format, TERMINAL_PERMISSION_MESSAGE,
};

#[test]
fn format_error_message_without_messages_is_unknown() {
    assert_eq!(format_error_message(&Vec::new()), "Unknown error");
}

#[test]
fn format_error_message_with_one_message_is_the_headline() {
    let messages = vec![String::from("Unable to connect")];
    assert_eq!(format_error_message(&messages), "Unable to connect");
}

#[test]
fn format_error_message_adds_only_the_root_cause() {
    let messages = vec![
        String::from("Unable to list pods"),
        String::from("request failed"),
        String::from("connection refused"),
    ];
    assert_eq!(
        format_error_message(&messages),
        "Unable to list pods (connection refused)"
    );
}

#[test]
fn format_error_message_shortens_rbac_denials() {
    let messages = vec![
        String::from("Unable to list namespaces"),
        String::from(
            "ApiError: namespaces is forbidden: User \"alice\" cannot list resource \"namespaces\"",
        ),
    ];
    assert_eq!(
        format_error_message(&messages),
        "Unable to list namespaces (namespaces is forbidden)"
    );
}

#[test]
fn format_error_reads_the_error_chain() {
    let error = anyhow::Error::msg("connection refused").context("Unable to load cluster");
    assert_eq!(format_error(error), "Unable to load cluster (connection refused)");
}

#[test]
fn format_error_of_a_single_error_is_its_message() {
    let error = anyhow::Error::msg("timed out");
    assert_eq!(format_error(error), "timed out");
}

#[test]
fn terminal_error_message_explains_missing_exec_permission() {
    assert_eq!(
        terminal_error_message("pods \"web\" is Forbidden: cannot create resource"),
        TERMINAL_PERMISSION_MESSAGE
    );
    assert_eq!(
        terminal_error_message("User cannot create pods/exec"),
        TERMINAL_PERMISSION_MESSAGE
    );
    assert_eq!(
        terminal_error_message("Cannot Create EXEC session"),
        TERMINAL_PERMISSION_MESSAGE
    );
}

#[test]
fn terminal_error_message_passes_other_errors_on() {
    assert_eq!(
        terminal_error_message("container not found"),
        "Terminal failed to start: container not found"
    );
    assert_eq!(
        terminal_error_message("cannot create session"),
        "Terminal failed to start: cannot create session"
    );
}

#[test]
fn tr_format_replaces_every_placeholder_in_order() {
    let filled = tr_format(
        "{filtered}/{total} objects in {resource}",
        &[
            ("{filtered}", String::from("3")),
            ("{total}", String::from("10")),
            ("{resource}", String::from("Pods")),
        ],
    );
    assert_eq!(filled, "3/10 objects in Pods");
    assert_eq!(
        tr_format("{name} and {name}", &[("{name}", String::from("x"))]),
        "x and x"
    );
    assert_eq!(tr_format("ab", &[("", String::from("-"))]), "-a-b-");
    assert_eq!(tr_format("plain", &[]), "plain");
}

#[test]
fn tr_format_fills_a_translated_message() {
    assert_eq!(
        tr_format(
            "Discovering resources in {context}...",
            &[("{context}", String::from("prod"))]
        ),
        "Discovering resources in prod..."
    );
}

#[test]
fn count_labels_pick_the_noun_for_the_count() {
    assert_eq!(project_context_count(1), "1 cluster");
    assert_eq!(project_context_count(0), "0 clusters");
    assert_eq!(project_context_count(3), "3 clusters");
    assert_eq!(resource_count_label(1, "resource type"), "1 resource type");
    assert_eq!(resource_count_label(42, "resource types"), "42 resource types");
    assert_eq!(resource_count_label(2, "Ressourcentypen"), "2 Ressourcentypen");
}
