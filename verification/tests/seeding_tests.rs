use httpautomate::http_request_executor::fill_storage_by_environment;
use httpautomate::http_request_executor::seed_from_entries;
use httpautomate::http_request_executor::VariableStorage;

#[test]
fn selected_environment_seeds_only_its_keys() {
    let mut s = VariableStorage::new();
    let docs = vec![r#"{"dev":{"a":"1","b":"2"},"prod":{"a":"9"}}"#.to_string()];
    fill_storage_by_environment(&mut s, &docs, "dev").unwrap();
    assert_eq!(s.get(&"a".to_string()), "1");
    assert_eq!(s.get(&"b".to_string()), "2");
    assert!(!s.is_empty());
}

#[test]
fn nonexistent_environment_seeds_nothing_without_error() {
    let mut s = VariableStorage::new();
    let docs = vec![r#"{"dev":{"a":"1"},"prod":{"a":"9"}}"#.to_string()];
    fill_storage_by_environment(&mut s, &docs, "qa").unwrap();
    assert!(s.is_empty());
}

#[test]
fn invalid_json_is_fatal_and_names_the_document() {
    let mut s = VariableStorage::new();
    let docs = vec![r#"{"dev":{}}"#.to_string(), "nope{".to_string()];
    let e = fill_storage_by_environment(&mut s, &docs, "dev").unwrap_err();
    assert_eq!(e.0, "environment file #1");
    assert_eq!(e.message(), "error while reading file \"environment file #1\"");
}

#[test]
fn non_string_values_are_dropped() {
    let mut s = VariableStorage::new();
    let docs = vec![r#"{"dev":{"a":1,"b":"x","c":null,"d":{"e":"f"}}}"#.to_string()];
    fill_storage_by_environment(&mut s, &docs, "dev").unwrap();
    assert!(!s.contains("a"));
    assert!(!s.contains("c"));
    assert!(!s.contains("d"));
    assert_eq!(s.get(&"b".to_string()), "x");
}

#[test]
fn later_documents_override_earlier_ones() {
    let mut s = VariableStorage::new();
    let docs = vec![
        r#"{"dev":{"a":"first","only":"here"}}"#.to_string(),
        r#"{"dev":{"a":"second"}}"#.to_string(),
    ];
    fill_storage_by_environment(&mut s, &docs, "dev").unwrap();
    assert_eq!(s.get(&"a".to_string()), "second");
    assert_eq!(s.get(&"only".to_string()), "here");
}

#[test]
fn top_level_non_object_seeds_nothing() {
    let mut s = VariableStorage::new();
    let docs = vec!["[1, 2, 3]".to_string()];
    fill_storage_by_environment(&mut s, &docs, "dev").unwrap();
    assert!(s.is_empty());
}

#[test]
fn seed_from_entries_copies_in_order() {
    let mut s = VariableStorage::new();
    let doc = vec![
        (
            "dev".to_string(),
            vec![
                ("k".to_string(), Some("1".to_string())),
                ("k".to_string(), Some("2".to_string())),
                ("skip".to_string(), None),
            ],
        ),
        ("prod".to_string(), vec![("k".to_string(), Some("9".to_string()))]),
    ];
    seed_from_entries(&mut s, &doc, "dev");
    assert_eq!(s.get(&"k".to_string()), "2");
    assert!(!s.contains("skip"));
}
