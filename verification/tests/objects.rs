use aetheris_app::objects::{
    condition_icon_name, event_icon_name, filtered_objects, object_matches, object_target,
    remove_object, same_object, sort_objects, upsert_object, ObjectCondition, ObjectEvent,
    ObjectSummary, ObjectUsage,
};
use aetheris_app::status::StatusFilter;

fn object(namespace: &str, name: &str, status: &str) -> ObjectSummary {
    ObjectSummary {
        name: name.to_owned(),
        namespace: namespace.to_owned(),
        status: status.to_owned(),
        api_version: String::from("v1"),
        service_target: String::new(),
        ingress_target: String::new(),
        metrics: None,
    }
}

fn names(objects: &[ObjectSummary]) -> Vec<String> {
    objects
        .iter()
        .map(|object| format!("{}/{}", object.namespace, object.name))
        .collect()
}

#[test]
fn same_object_compares_name_and_namespace() {
    assert!(same_object(&object("a", "web", "Running"), &object("a", "web", "Pending")));
    assert!(!same_object(&object("a", "web", "Running"), &object("b", "web", "Running")));
    assert!(!same_object(&object("a", "web", "Running"), &object("a", "api", "Running")));
}

#[test]
fn sort_objects_orders_by_namespace_then_name_and_is_stable() {
    let mut objects = vec![
        object("b", "x", "1"),
        object("a", "z", "1"),
        object("a", "y", "first"),
        object("a", "y", "second"),
        object("", "w", "1"),
    ];
    sort_objects(&mut objects);
    assert_eq!(names(&objects), vec!["/w", "a/y", "a/y", "a/z", "b/x"]);
    assert_eq!(objects[1].status, "first");
    assert_eq!(objects[2].status, "second");
}

#[test]
fn object_matches_searches_fields_in_lower_case() {
    let mut web = object("Payments", "Web-Frontend", "Running");
    assert!(object_matches(&web, "frontend"));
    assert!(object_matches(&web, "payments"));
    assert!(object_matches(&web, "running"));
    assert!(object_matches(&web, "v1"));
    assert!(!object_matches(&web, "250m"));
    assert!(!object_matches(&web, "Frontend"));
    web.metrics = Some(ObjectUsage {
        cpu: String::from("250m"),
        memory: String::from("128Mi"),
    });
    assert!(object_matches(&web, "250m"));
    assert!(object_matches(&web, "128mi"));
}

#[test]
fn object_target_prefers_the_service_target() {
    let mut o = object("a", "svc", "");
    o.ingress_target = String::from("ingress.example.com");
    assert_eq!(object_target(&o), "ingress.example.com");
    o.service_target = String::from("10.0.0.1:80");
    assert_eq!(object_target(&o), "10.0.0.1:80");
}

#[test]
fn upsert_object_replaces_or_appends() {
    let mut objects = vec![object("a", "web", "Pending"), object("a", "api", "Running")];
    upsert_object(&mut objects, object("a", "web", "Running"));
    assert_eq!(objects.len(), 2);
    assert_eq!(objects[0].status, "Running");
    upsert_object(&mut objects, object("b", "web", "Running"));
    assert_eq!(names(&objects), vec!["a/web", "a/api", "b/web"]);
}

#[test]
fn remove_object_drops_every_row_of_the_object() {
    let mut objects = vec![
        object("a", "web", "1"),
        object("a", "api", "1"),
        object("a", "web", "2"),
    ];
    remove_object(&mut objects, &object("a", "web", "whatever"));
    assert_eq!(names(&objects), vec!["a/api"]);
}

#[test]
fn remove_undoes_upsert() {
    let before = vec![object("a", "api", "1")];
    let mut objects = vec![object("a", "api", "1")];
    upsert_object(&mut objects, object("a", "web", "new"));
    remove_object(&mut objects, &object("a", "web", "new"));
    assert_eq!(names(&objects), names(&before));
}

#[test]
fn filtered_objects_applies_status_filters_and_search() {
    let objects = vec![
        object("a", "web", "Running"),
        object("a", "api", "Pending"),
        object("b", "worker", "Running 1/1"),
    ];
    let all = StatusFilter::default_filters();
    assert_eq!(filtered_objects(&objects, "", &all).len(), 3);
    assert_eq!(
        names(&filtered_objects(&objects, "  WEB ", &all)),
        vec!["a/web"]
    );
    assert_eq!(
        names(&filtered_objects(&objects, "", &[StatusFilter::Running])),
        vec!["a/web", "b/worker"]
    );
    assert_eq!(
        names(&filtered_objects(&objects, "worker", &[StatusFilter::Running])),
        vec!["b/worker"]
    );
    assert!(filtered_objects(&objects, "", &[]).is_empty());
}

#[test]
fn condition_and_event_icons_flag_problems() {
    let condition = ObjectCondition {
        type_: String::from("Ready"),
        status: String::from("FALSE"),
        reason: String::from("-"),
        message: String::from("-"),
        last_transition: String::from("1m"),
    };
    assert_eq!(condition_icon_name(&condition), "dialog-warning-symbolic");
    let ok = ObjectCondition {
        status: String::from("True"),
        ..condition
    };
    assert_eq!(condition_icon_name(&ok), "dialog-information-symbolic");
    let event = ObjectEvent {
        type_: String::from("warning"),
        reason: String::from("BackOff"),
        message: String::from("restarting"),
        last_seen: String::from("5s"),
    };
    assert_eq!(event_icon_name(&event), "dialog-warning-symbolic");
    let normal = ObjectEvent {
        type_: String::from("Normal"),
        ..event
    };
    assert_eq!(event_icon_name(&normal), "dialog-information-symbolic");
}
