use httpautomate::http_request_executor::VariableStorage;

#[test]
fn set_get_contains_roundtrip() {
    let mut s = VariableStorage::new();
    assert!(s.is_empty());
    s.set(&"name".to_string(), &"alice".to_string());
    assert!(!s.is_empty());
    assert!(s.contains("name"));
    assert_eq!(s.get(&"name".to_string()), "alice");
}

#[test]
fn get_absent_is_empty_string() {
    let s = VariableStorage::new();
    assert!(!s.contains("missing"));
    assert_eq!(s.get(&"missing".to_string()), "");
}

#[test]
fn set_overwrites() {
    let mut s = VariableStorage::new();
    s.set(&"k".to_string(), &"1".to_string());
    s.set(&"k".to_string(), &"2".to_string());
    assert_eq!(s.get(&"k".to_string()), "2");
}

#[test]
fn clear_removes_and_is_noop_when_absent() {
    let mut s = VariableStorage::new();
    s.set(&"k".to_string(), &"1".to_string());
    s.clear(&"k".to_string());
    assert!(!s.contains("k"));
    assert_eq!(s.get(&"k".to_string()), "");
    s.clear(&"never".to_string());
    assert!(s.is_empty());
}

#[test]
fn clear_all_empties_the_store() {
    let mut s = VariableStorage::new();
    s.set(&"a".to_string(), &"1".to_string());
    s.set(&"b".to_string(), &"2".to_string());
    s.clear_all();
    assert!(s.is_empty());
    assert!(!s.contains("a"));
    assert!(s.contains("$uuid"));
}

#[test]
fn dynamic_names_are_recognized() {
    let s = VariableStorage::new();
    assert!(s.contains("$uuid"));
    assert!(s.contains("$random.uuid"));
    assert!(s.contains("$randomInt"));
    assert!(s.contains("$timestamp"));
    assert!(s.contains("$isoTimestamp"));
    assert!(!s.contains("$nope"));
}

#[test]
fn dynamic_uuid_is_fresh_36_chars() {
    let s = VariableStorage::new();
    let a = s.get(&"$uuid".to_string());
    let b = s.get(&"$uuid".to_string());
    assert_eq!(a.chars().count(), 36);
    assert_eq!(b.chars().count(), 36);
    assert_ne!(a, b);
    let c = s.get(&"$random.uuid".to_string());
    assert_eq!(c.chars().count(), 36);
}

#[test]
fn dynamic_random_int_is_in_range_and_varies() {
    let s = VariableStorage::new();
    let mut seen = Vec::new();
    for _ in 0..8 {
        let v = s.get(&"$randomInt".to_string());
        let n: u32 = v.parse().unwrap();
        assert!(n < 1000);
        seen.push(n);
    }
    let first = seen[0];
    assert!(seen.iter().any(|&n| n != first), "eight equal draws are all but impossible");
}

#[test]
fn dynamic_timestamp_is_decimal_seconds() {
    let s = VariableStorage::new();
    let a: u64 = s.get(&"$timestamp".to_string()).parse().unwrap();
    let b: u64 = s.get(&"$timestamp".to_string()).parse().unwrap();
    assert!(a > 1_600_000_000);
    assert!(b >= a);
}

#[test]
fn dynamic_iso_timestamp_is_utc_rfc3339() {
    let s = VariableStorage::new();
    let v = s.get(&"$isoTimestamp".to_string());
    assert!(v.contains('T'));
    assert!(v.ends_with('Z'));
    assert!(v.contains('.'));
}

#[test]
fn dynamic_names_are_not_clearable() {
    let mut s = VariableStorage::new();
    s.clear(&"$uuid".to_string());
    assert!(s.contains("$uuid"));
    s.clear_all();
    assert!(s.contains("$randomInt"));
}

#[test]
fn stored_dollar_key_is_shadowed_by_dynamic_namespace() {
    let mut s = VariableStorage::new();
    s.set(&"$foo".to_string(), &"v".to_string());
    assert!(!s.contains("$foo"));
}
