use ttl_cache::Cache;

fn example_data(id: &str) -> serde_json::Value {
    let mut address = serde_json::Map::new();
    address.insert(
        "street".to_string(),
        serde_json::Value::String(format!("{id} St.")),
    );
    address.insert(
        "number".to_string(),
        serde_json::Value::Number(serde_json::Number::from(42u32)),
    );
    address.insert(
        "state".to_string(),
        serde_json::Value::String("CA".to_string()),
    );
    address.insert(
        "zip_code".to_string(),
        serde_json::Value::Number(serde_json::Number::from(0u64)),
    );
    let mut data = serde_json::Map::new();
    data.insert("id".to_string(), serde_json::Value::String(id.to_string()));
    data.insert(
        "username".to_string(),
        serde_json::Value::String(format!("{id}_username")),
    );
    data.insert(
        "age".to_string(),
        serde_json::Value::Number(serde_json::Number::from(30u32)),
    );
    data.insert(
        "addresses".to_string(),
        serde_json::Value::Array(vec![serde_json::Value::Object(address)]),
    );
    serde_json::Value::Object(data)
}

#[test]
fn entries_test() {
    let mut cache = Cache::new();
    let value = "fixed_snapshot_payload".to_string();
    for i in 0..1_000 {
        cache.set(
            &i.to_string(),
            serde_json::Value::String(value.clone()),
            Some(600_000),
        );
    }
    let start = std::time::Instant::now();
    let entries = cache.entries();
    println!("entries operation done in: {:?}", start.elapsed());
    assert!(entries.len() == 1_000);
    entries.iter().for_each(|(_, val)| {
        assert_eq!(val.data, serde_json::Value::String(value.clone()));
    });
}

#[test]
fn size_test() {
    let mut cache = Cache::new();
    let data = example_data("size_test_id");
    cache.set("size_test_id", data, Some(10_000));
    assert!(cache.size() >= 1_usize);
}

#[test]
fn clear_test() {
    let mut cache = Cache::new();
    let data = example_data("clear_test_id");
    cache.set("clear_test_id", data, Some(10_000));

    assert!(cache.size() >= 1_usize);

    cache.clear();
    assert!(cache.size() == 0_usize);
}

#[test]
fn footprint_test() {
    let mut cache = Cache::new();
    for i in 0..=1_000 {
        let id = format!("footprint_id_{i}");
        let data = example_data(&id);
        cache.set(&id, data, Some(100_000));
    }
    let now = std::time::Instant::now();
    let memory_size = cache.footprint();
    println!(
        "footprint: {} MB in {:?}",
        memory_size as f64 * 0.000_001,
        now.elapsed()
    );
}

#[test]
fn scalar_footprint_test() {
    let mut cache = Cache::new();
    for i in 0..=1_000 {
        cache.set(
            &i.to_string(),
            serde_json::Value::Number(serde_json::Number::from(i)),
            Some(600_000),
        );
    }
    let now = std::time::Instant::now();
    let memory_size = cache.footprint();
    println!(
        "footprint: {} MB in {:?}",
        memory_size as f64 * 0.000001,
        now.elapsed()
    );
}

#[test]
fn larger_footprint_test() {
    let mut cache = Cache::new();
    for i in 0..=5_000 {
        let id = format!("larger_footprint_id_{i}");
        let data = example_data(&id);
        cache.set(&id, data, Some(100_000));
    }
    let now = std::time::Instant::now();
    let memory_size = cache.footprint();
    println!(
        "larger footprint: {} MB in {:?}",
        memory_size as f64 * 0.000001,
        now.elapsed()
    );
    cache.clear();
}

#[test]
fn purge_stale_test() {
    let mut cache = Cache::new();
    let base: i64 = 1_700_000_000_000;
    // set half the items to expire instantly; half to have a long expiration
    for i in 0..10_000 {
        let expiration = if i % 2 == 0 { 0 } else { 600_000 };
        cache.set_at(
            &i.to_string(),
            serde_json::Value::Number(serde_json::Number::from(i)),
            Some(expiration),
            base,
        );
    }
    assert!(cache.size() == 10_000);
    // move the clock past the zero-lifetime entries' expiry
    let start = std::time::Instant::now();
    let purged = cache.purge_stale_at(base + 1);
    // should have kept half
    assert_eq!(purged, 5_000_usize);
    println!("purge stale operation done in: {:?}", start.elapsed());
    // half the data (which is stale) should now be removed
    assert!(cache.size() == 5_000_usize);
    cache.entries().iter().for_each(|(key, value)| {
        // expiration should not be reached
        assert_eq!(value.expiration_in_ms, 600_000);
        let key = key.parse::<i32>().unwrap();
        // all keys should be odd
        assert!(key % 2 != 0);
    });
}

#[test]
fn purge_nothing_test() {
    let mut cache = Cache::new();
    let base: i64 = 1_700_000_000_000;
    for i in 0..10_000 {
        cache.set_at(
            &i.to_string(),
            serde_json::Value::Number(serde_json::Number::from(i)),
            Some(600_000),
            base,
        );
    }
    assert!(cache.size() == 10_000_usize);

    let purged = cache.purge_stale_at(base + 1);
    assert_eq!(purged, 10_000_usize);

    assert!(cache.size() == 10_000_usize);
}
