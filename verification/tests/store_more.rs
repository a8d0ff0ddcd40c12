use aetheris_app::ansi::{apply_sgr_codes, parse_ansi_line, AnsiTag};
use aetheris_app::columns::ObjectColumn;
use aetheris_app::favorite::{normalize_favorites, DetailTarget, ObjectFavorite};
use aetheris_app::project::{ContextNamespaces, Project};
use aetheris_app::resource::{ResourceKind, ResourceScope};
use aetheris_app::store::{ContextInfo, ContextNamespaceSelection, ObjectColumnWidth, ProjectStore};

fn context(name: &str) -> ContextInfo {
    ContextInfo {
        name: name.to_owned(),
        cluster: name.to_owned(),
        server: String::from("https://example.com:6443"),
        host: String::from("example.com"),
        user: format!("{name}-user"),
        is_current: false,
        insecure_skip_tls_verify: false,
    }
}

fn target(namespace: Option<&str>, name: &str) -> DetailTarget {
    DetailTarget {
        context: String::from("prod"),
        resource: ResourceKind {
            group: String::from("apps"),
            version: String::from("v1"),
            api_version: String::from("apps/v1"),
            kind: String::from("Deployment"),
            plural: String::from("deployments"),
            scope: ResourceScope::Namespaced,
        },
        namespace: namespace.map(|n| n.to_owned()),
        name: name.to_owned(),
    }
}

#[test]
fn name_width_is_read_back_with_its_minimum() {
    let mut store = ProjectStore::default();
    assert!(store.set_object_name_width(300));
    assert_eq!(store.object_name_width(), 300);
    assert!(!store.set_object_name_width(300));
    assert!(store.set_object_name_width(5));
    assert_eq!(store.object_name_width(), 160);
    assert!(store.set_object_name_width(244));
    assert_eq!(store.object_name_width(), 244);
    assert_eq!(store.object_name_width, None);
}

#[test]
fn column_width_set_to_default_is_forgotten() {
    let mut store = ProjectStore::default();
    assert!(store.set_object_column_width(ObjectColumn::Age, 100));
    assert_eq!(store.object_column_width(ObjectColumn::Age), 100);
    assert!(store.set_object_column_width(ObjectColumn::Age, 56));
    assert_eq!(store.object_column_width(ObjectColumn::Age), 56);
    assert!(store.object_column_widths.is_empty());
    assert!(!store.set_object_column_width(ObjectColumn::Age, 56));
}

#[test]
fn toggle_twice_restores_the_favorites() {
    let mut store = ProjectStore::default();
    let deploy = target(Some("team-a"), "web");
    let other = target(None, "web");
    assert!(store.toggle_object_favorite(&deploy));
    assert!(store.toggle_object_favorite(&other));
    assert!(store.is_object_favorite(&deploy));
    assert!(store.is_object_favorite(&other));
    assert_eq!(store.favorite_objects.len(), 2);
    assert_eq!(store.favorite_objects[0].namespace(), None);
    assert!(store.toggle_object_favorite(&deploy));
    assert!(!store.is_object_favorite(&deploy));
    assert!(store.is_object_favorite(&other));
}

#[test]
fn normalized_favorites_are_clean_sorted_and_unique() {
    let mut blank = ObjectFavorite::from_target(&target(Some("  "), " web "));
    blank.context = String::from(" prod ");
    let kept = ObjectFavorite::from_target(&target(Some("a"), "api"));
    let dropped = ObjectFavorite::from_target(&target(None, "   "));
    let out = normalize_favorites(&vec![blank.clone(), kept.clone(), blank, dropped]);
    assert_eq!(out.len(), 2);
    assert_eq!(out[0].name, "web");
    assert_eq!(out[0].context, "prod");
    assert_eq!(out[0].namespace(), None);
    assert_eq!(out[1].name, "api");
}

#[test]
fn loaded_store_is_clean() {
    let mut saved = ProjectStore::empty();
    saved.projects = vec![Project {
        name: String::from("Work"),
        contexts: vec![String::from("prod"), String::from("gone")],
        custom_namespaces_by_context: vec![
            ContextNamespaces {
                context: String::from(" prod "),
                namespaces: vec![String::from("b "), String::from("a"), String::from("all"), String::from("a")],
            },
            ContextNamespaces {
                context: String::from("gone"),
                namespaces: vec![String::from("x")],
            },
        ],
    }];
    saved.selected_project = Some(String::from("Nope"));
    saved.last_namespaces_by_context = vec![
        ContextNamespaceSelection { context: String::from(" prod"), namespace: String::from("b ") },
        ContextNamespaceSelection { context: String::from("prod"), namespace: String::from("c") },
    ];
    let store = ProjectStore::load(Some(saved), &[]);
    assert_eq!(store.selected_project_name(), "Work");
    let project = store.selected_project().unwrap();
    assert_eq!(project.contexts, vec![String::from("gone"), String::from("prod")]);
    assert_eq!(
        project.custom_namespaces_for_context(Some("prod")),
        vec![String::from("a"), String::from("b")]
    );
    assert_eq!(store.last_namespace_for_context(Some("prod")), Some("b"));
    assert_eq!(store.last_namespaces_by_context.len(), 1);
    assert_eq!(ProjectStore::load(None, &[context("prod")]).projects.len(), 0);
}

#[test]
fn contexts_added_and_removed() {
    let mut store = ProjectStore::default();
    store.add_contexts_to_selected_project(vec![String::from(" stage "), String::from(" "), String::from("prod"), String::from("prod")]);
    assert_eq!(
        store.selected_project().unwrap().contexts,
        vec![String::from("prod"), String::from("stage")]
    );
    store.selected_project_mut().unwrap().add_custom_namespace("prod", "billing");
    store.remove_context_from_selected_project("prod");
    let project = store.selected_project().unwrap();
    assert_eq!(project.contexts, vec![String::from("stage")]);
    assert!(project.custom_namespaces_for_context(Some("prod")).is_empty());
}

#[test]
fn last_namespace_set_again_reports_no_change() {
    let mut store = ProjectStore::default();
    assert!(!store.set_last_namespace_for_context(" ", "team-a"));
    assert!(store.set_last_namespace_for_context(" prod ", " team-a "));
    assert_eq!(store.last_namespace_for_context(Some("prod")), Some("team-a"));
    assert!(!store.set_last_namespace_for_context("prod", "team-a"));
}

#[test]
fn ansi_segments_have_text_and_one_colour() {
    assert_eq!(
        parse_ansi_line("\u{1b}[31;32;1;1mX"),
        vec![(String::from("X"), vec!["ansi-fg-green", "ansi-bold"])]
    );
    assert!(parse_ansi_line("\u{1b}[1m\u{1b}[0m").is_empty());
    assert_eq!(
        parse_ansi_line("a\u{1b}[1mb\u{1b}[22mc\u{1b}x"),
        vec![
            (String::from("a"), vec![]),
            (String::from("b"), vec!["ansi-bold"]),
            (String::from("c\u{1b}x"), vec![]),
        ]
    );
}

#[test]
fn clean_up_twice_changes_nothing() {
    let favorites = vec![
        ObjectFavorite::from_target(&target(Some(" b "), "web")),
        ObjectFavorite::from_target(&target(None, "api")),
        ObjectFavorite::from_target(&target(Some("b"), "web")),
    ];
    let once = normalize_favorites(&favorites);
    let twice = normalize_favorites(&once);
    assert_eq!(once, twice);
    assert_eq!(once.len(), 2);

    let mut store = ProjectStore::default();
    store.last_namespaces_by_context = vec![
        ContextNamespaceSelection { context: String::from("b "), namespace: String::from(" x") },
        ContextNamespaceSelection { context: String::from("a"), namespace: String::from("y") },
    ];
    store.normalize_last_namespaces(&[]);
    let first: Vec<(String, String)> = store
        .last_namespaces_by_context
        .iter()
        .map(|e| (e.context.clone(), e.namespace.clone()))
        .collect();
    store.normalize_last_namespaces(&[]);
    let second: Vec<(String, String)> = store
        .last_namespaces_by_context
        .iter()
        .map(|e| (e.context.clone(), e.namespace.clone()))
        .collect();
    assert_eq!(first, second);
    assert_eq!(first, vec![(String::from("a"), String::from("y")), (String::from("b"), String::from("x"))]);

    let mut project = Project {
        name: String::from("Work"),
        contexts: vec![String::from("prod")],
        custom_namespaces_by_context: vec![ContextNamespaces {
            context: String::from(" prod"),
            namespaces: vec![String::from("z"), String::from(" a "), String::from("all")],
        }],
    };
    project.normalize_custom_namespaces();
    let once = project.custom_namespaces_for_context(Some("prod"));
    project.normalize_custom_namespaces();
    assert_eq!(project.custom_namespaces_for_context(Some("prod")), once);
    assert_eq!(once, vec![String::from("a"), String::from("z")]);
}

#[test]
fn toggling_an_object_twice_gives_back_the_list() {
    let mut store = ProjectStore::default();
    assert!(store.toggle_object_favorite(&target(Some("team-a"), "web")));
    assert!(store.toggle_object_favorite(&target(None, "db")));
    let before = store.favorite_objects.clone();
    let new = target(Some("team-b"), "api");
    assert!(store.toggle_object_favorite(&new));
    assert_eq!(store.favorite_objects.len(), 3);
    assert!(store.toggle_object_favorite(&new));
    assert_eq!(store.favorite_objects, before);
    let pinned = target(None, "db");
    assert!(store.toggle_object_favorite(&pinned));
    assert_eq!(store.favorite_objects.len(), 1);
    assert!(store.toggle_object_favorite(&pinned));
    assert_eq!(store.favorite_objects, before);
}

#[test]
fn remembering_a_namespace_keeps_other_contexts() {
    let mut store = ProjectStore::default();
    assert!(store.set_last_namespace_for_context("prod", "team-a"));
    assert!(store.set_last_namespace_for_context("stage", "team-b"));
    assert!(store.set_last_namespace_for_context("dev", "team-c"));
    assert!(store.set_last_namespace_for_context("prod", "team-d"));
    assert_eq!(store.last_namespace_for_context(Some("prod")), Some("team-d"));
    assert_eq!(store.last_namespace_for_context(Some("stage")), Some("team-b"));
    assert_eq!(store.last_namespace_for_context(Some("dev")), Some("team-c"));
    assert_eq!(store.last_namespace_for_context(None), None);
}

#[test]
fn cleaning_column_widths_keeps_every_shown_width() {
    let mut store = ProjectStore::default();
    store.object_column_widths = vec![
        ObjectColumnWidth { column: ObjectColumn::Age, width: 10 },
        ObjectColumnWidth { column: ObjectColumn::Image, width: 220 },
        ObjectColumnWidth { column: ObjectColumn::Age, width: 300 },
        ObjectColumnWidth { column: ObjectColumn::Cpu, width: 90 },
        ObjectColumnWidth { column: ObjectColumn::Namespace, width: 47 },
    ];
    let all = [
        ObjectColumn::Image,
        ObjectColumn::Namespace,
        ObjectColumn::Target,
        ObjectColumn::Selector,
        ObjectColumn::IngressClass,
        ObjectColumn::Status,
        ObjectColumn::Cpu,
        ObjectColumn::Memory,
        ObjectColumn::Api,
        ObjectColumn::Age,
    ];
    let shown: Vec<i32> = all.iter().map(|c| store.object_column_width(*c)).collect();
    store.normalize_object_column_widths();
    let after: Vec<i32> = all.iter().map(|c| store.object_column_width(*c)).collect();
    assert_eq!(shown, after);
    assert_eq!(store.object_column_width(ObjectColumn::Age), 48);
    let columns: Vec<ObjectColumn> = store.object_column_widths.iter().map(|w| w.column).collect();
    assert_eq!(columns, vec![ObjectColumn::Namespace, ObjectColumn::Cpu, ObjectColumn::Age]);
}

#[test]
fn adding_a_namespace_leaves_other_contexts_alone() {
    let mut project = Project {
        name: String::from("Work"),
        contexts: vec![String::from("prod"), String::from("stage")],
        custom_namespaces_by_context: Vec::new(),
    };
    assert!(project.add_custom_namespace("stage", "b"));
    assert!(project.add_custom_namespace("prod", "x"));
    assert!(project.add_custom_namespace("stage", "a"));
    assert!(!project.add_custom_namespace("stage", "a"));
    assert!(!project.add_custom_namespace("", "a"));
    assert_eq!(
        project.custom_namespaces_for_context(Some("stage")),
        vec![String::from("a"), String::from("b")]
    );
    assert_eq!(project.custom_namespaces_for_context(Some("prod")), vec![String::from("x")]);
    let contexts: Vec<&str> =
        project.custom_namespaces_by_context.iter().map(|e| e.context.as_str()).collect();
    assert_eq!(contexts, vec!["prod", "stage"]);
}

#[test]
fn cleaning_custom_namespaces_keeps_every_pair() {
    let mut project = Project {
        name: String::from("Work"),
        contexts: Vec::new(),
        custom_namespaces_by_context: vec![
            ContextNamespaces {
                context: String::from(" stage "),
                namespaces: vec![String::from(" b"), String::from("all"), String::from("a ")],
            },
            ContextNamespaces { context: String::from("prod"), namespaces: vec![String::from(" ")] },
            ContextNamespaces { context: String::from("dev"), namespaces: vec![String::from("x")] },
        ],
    };
    project.normalize_custom_namespaces();
    assert_eq!(
        project.custom_namespaces_for_context(Some("stage")),
        vec![String::from("a"), String::from("b")]
    );
    assert_eq!(project.custom_namespaces_for_context(Some("dev")), vec![String::from("x")]);
    assert!(project.custom_namespaces_for_context(Some("prod")).is_empty());
    assert_eq!(project.custom_namespaces_by_context.len(), 2);
}

#[test]
fn sgr_codes_reset_and_keep_one_colour() {
    let mut tags = vec![AnsiTag::Bold, AnsiTag::FgRed];
    apply_sgr_codes(&"0".chars().collect(), &mut tags);
    assert!(tags.is_empty());
    apply_sgr_codes(&"1;31;94".chars().collect(), &mut tags);
    assert_eq!(tags, vec![AnsiTag::Bold, AnsiTag::FgBlue]);
    apply_sgr_codes(&"1;32".chars().collect(), &mut tags);
    assert_eq!(tags, vec![AnsiTag::Bold, AnsiTag::FgGreen]);
    apply_sgr_codes(&Vec::new(), &mut tags);
    assert!(tags.is_empty());
}
