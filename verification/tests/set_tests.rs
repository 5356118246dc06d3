use ttl_cache::Cache;
use ttl_cache::DEFAULT_EXPIRATION;

fn example_data(id: &str) -> serde_json::Value {
    let mut data = serde_json::Map::new();
    data.insert("id".to_string(), serde_json::Value::String(id.to_string()));
    data.insert(
        "username".to_string(),
        serde_json::Value::String(format!("{id}_username")),
    );
    serde_json::Value::Object(data)
}

#[test]
fn set_test() {
    let mut cache = Cache::new();
    let ids = ["set_test_one", "set_test_two", "set_test_three"];

    let inserted = cache.set(ids[0], example_data(ids[0]), Some(60_000));
    assert!(inserted >= 1_usize);

    let inserted = cache.set(ids[1], example_data(ids[1]), Some(60_000));
    assert!(inserted >= 2_usize);

    let inserted = cache.set(ids[2], example_data(ids[2]), Some(60_000));
    assert!(inserted >= 3_usize);
}

#[test]
fn set_with_default_expiration() {
    let mut cache = Cache::new();
    let id = "set_default_expiration_id";
    let inserted = cache.set(id, example_data(id), None);
    assert!(inserted >= 1_usize);

    let data = cache.get(id);
    assert!(data.is_some());

    let metadata = cache.get_metadata(id).unwrap();
    assert_eq!(metadata.expiration_in_ms, DEFAULT_EXPIRATION);
}

#[test]
fn set_scalar_types() {
    let mut cache = Cache::new();

    let val = serde_json::Value::String(format!("some_string_{}", "set_scalar_suffix"));
    let inserted = cache.set("set_scalar_string", val, Some(60_000));
    assert!(inserted >= 1_usize);

    let val = serde_json::Value::Number(serde_json::Number::from(8));
    let inserted = cache.set("set_scalar_number", val, Some(60_000));
    assert!(inserted >= 2_usize);

    let val = serde_json::Value::Bool(true);
    let inserted = cache.set("set_scalar_bool", val, Some(60_000));
    assert!(inserted >= 3_usize);

    let val = serde_json::Value::String("c".to_string());
    let inserted = cache.set("set_scalar_char", val, Some(60_000));
    assert!(inserted >= 4_usize);

    let val = serde_json::Value::Array(vec![
        serde_json::Value::Number(serde_json::Number::from(1)),
        serde_json::Value::Number(serde_json::Number::from(2)),
    ]);
    let inserted = cache.set("set_scalar_pair", val, Some(60_000));
    assert!(inserted >= 5_usize);

    let val = serde_json::Value::Array(vec![
        serde_json::Value::Number(serde_json::Number::from(1)),
        serde_json::Value::Number(serde_json::Number::from(2)),
    ]);
    let inserted = cache.set("set_scalar_vec", val, Some(60_000));
    assert!(inserted >= 6_usize);
}

#[test]
fn tokio_tasks_test() {
    // the original issued these writes from concurrent tasks serialized by
    // the store's lock; one serialization of the same writes runs here
    let mut cache = Cache::new();
    let tasks: usize = 10_000;
    for i in 0..tasks {
        let id = format!("task_id_{i}");
        let inserted = cache.set(&id, example_data(&id), Some(10_000));
        assert!(inserted >= 1);
    }
    let cache_size = cache.size();
    assert!(cache_size >= tasks);
}
