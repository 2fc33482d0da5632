use mini_redis::cache::Cache;

#[test]
fn test_insert_and_retrieve() {
    let mut cache = Cache::new();

    cache.set("key1".to_string(), "value1".to_string(), 10);
    cache.set("key2".to_string(), "value2".to_string(), 10);

    let result1 = cache.get(&"key1".to_string());
    let result2 = cache.get(&"key2".to_string());

    assert_eq!(result1, Some("value1".to_string()));
    assert_eq!(result2, Some("value2".to_string()));
}

#[test]
fn test_retrieve_expired_entry() {
    let mut cache = Cache::new();

    cache.set_at(0, "key1".to_string(), "value1".to_string(), 1);

    let result = cache.get_at(2000, &"key1".to_string());

    assert_eq!(result, None);
}

#[test]
fn test_remove_expired_entry() {
    let mut cache = Cache::new();

    cache.set_at(0, "key1".to_string(), "value1".to_string(), 1);

    let result = cache.get_at(2000, &"key1".to_string());

    assert_eq!(result, None);
    // The expired entry was purged by the lookup above, so it stays
    // absent even at a time at which it would originally have been
    // live.
    let again = cache.get_at(500, &"key1".to_string());
    assert_eq!(again, None);
}

#[test]
fn test_ttl_expiry_boundary() {
    let mut cache = Cache::new();

    cache.set_at(5000, "key".to_string(), "value".to_string(), 10);

    assert_eq!(cache.get_at(14999, &"key".to_string()), Some("value".to_string()));
    assert_eq!(cache.get_at(15000, &"key".to_string()), None);
}

#[test]
fn test_overwrite_replaces_value_and_ttl() {
    let mut cache = Cache::new();

    cache.set_at(0, "key".to_string(), "first".to_string(), 10);
    cache.set_at(1000, "key".to_string(), "second".to_string(), 20);

    assert_eq!(cache.get_at(2000, &"key".to_string()), Some("second".to_string()));
    assert_eq!(cache.get_at(20999, &"key".to_string()), Some("second".to_string()));
    assert_eq!(cache.get_at(21000, &"key".to_string()), None);
}

#[test]
fn test_distinct_keys_do_not_interfere() {
    let mut cache = Cache::new();

    cache.set_at(0, "a".to_string(), "1".to_string(), 10);
    cache.set_at(0, "b".to_string(), "2".to_string(), 10);
    cache.set_at(1000, "a".to_string(), "3".to_string(), 10);

    assert_eq!(cache.get_at(2000, &"a".to_string()), Some("3".to_string()));
    assert_eq!(cache.get_at(2000, &"b".to_string()), Some("2".to_string()));
}

#[test]
fn test_expiry_leaves_other_keys() {
    let mut cache = Cache::new();

    cache.set_at(0, "short".to_string(), "v1".to_string(), 1);
    cache.set_at(0, "long".to_string(), "v2".to_string(), 100);

    assert_eq!(cache.get_at(5000, &"short".to_string()), None);
    assert_eq!(cache.get_at(5000, &"long".to_string()), Some("v2".to_string()));
}

#[test]
fn test_get_missing_key() {
    let mut cache = Cache::new();

    assert_eq!(cache.get(&"missing".to_string()), None);
}
