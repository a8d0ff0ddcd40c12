use aetheris_app::cache::{object_cache_key, ObjectCache, ObjectCacheKey};
use aetheris_app::objects::ObjectSummary;
use aetheris_app::resource::pod_resource_kind;

fn key(namespace: &str) -> ObjectCacheKey {
    object_cache_key("prod", &pod_resource_kind(), Some(namespace.to_owned()))
}

fn objects(name: &str) -> Vec<ObjectSummary> {
    vec![ObjectSummary {
        name: name.to_owned(),
        namespace: String::from("a"),
        status: String::from("Running"),
        api_version: String::from("v1"),
        service_target: String::new(),
        ingress_target: String::new(),
        metrics: None,
    }]
}

#[test]
fn object_cache_key_copies_the_resource() {
    let k = key("team-a");
    assert_eq!(k.context, "prod");
    assert_eq!(k.kind, "Pod");
    assert_eq!(k.plural, "pods");
    assert_eq!(k.group, "");
    assert_eq!(k.namespace.as_deref(), Some("team-a"));
    assert!(k.same_as(&key("team-a")));
    assert!(!k.same_as(&key("team-b")));
}

#[test]
fn cached_objects_returns_what_was_stored() {
    let mut cache = ObjectCache::new(2);
    assert!(cache.cached_objects(&key("a")).is_none());
    cache.cache_objects(key("a"), objects("first"));
    cache.cache_objects(key("a"), objects("second"));
    assert_eq!(cache.len(), 1);
    assert_eq!(cache.cached_objects(&key("a")).unwrap()[0].name, "second");
}

#[test]
fn cache_forgets_the_least_recently_used_list() {
    let mut cache = ObjectCache::new(2);
    cache.cache_objects(key("a"), objects("a"));
    cache.cache_objects(key("b"), objects("b"));
    assert!(cache.cached_objects(&key("a")).is_some());
    cache.cache_objects(key("c"), objects("c"));
    assert_eq!(cache.len(), 2);
    assert!(cache.cached_objects(&key("b")).is_none());
    assert!(cache.cached_objects(&key("a")).is_some());
    assert!(cache.cached_objects(&key("c")).is_some());
    cache.clear();
    assert_eq!(cache.len(), 0);
    assert_eq!(cache.limit(), 2);
}

#[test]
fn cache_without_room_keeps_nothing() {
    let mut cache = ObjectCache::new(0);
    cache.cache_objects(key("a"), objects("a"));
    assert_eq!(cache.len(), 0);
    assert!(cache.cached_objects(&key("a")).is_none());
}
