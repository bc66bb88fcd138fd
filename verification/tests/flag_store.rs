use roblox_fast_flag_editor::flags::{Flag, FlagStore, StoreError};
use roblox_fast_flag_editor::json::{json_to_str, JsonDocument, JsonValue};
use roblox_fast_flag_editor::value_type::JsonScalar;

fn listing(store: &FlagStore) -> Vec<(String, String, bool)> {
    store
        .flags()
        .iter()
        .map(|f: &Flag| (f.key.clone(), f.value.clone(), f.dirty))
        .collect()
}

fn entry(k: &str, v: &str, dirty: bool) -> (String, String, bool) {
    (k.to_string(), v.to_string(), dirty)
}

#[test]
fn new_store_is_empty() {
    let store = FlagStore::new();
    assert!(store.flags().is_empty());
    assert!(store.target_path().is_none());
}

#[test]
fn set_flag_keeps_keys_sorted() {
    let mut store = FlagStore::new();
    store.set_flag("FIntB".to_string(), "2".to_string());
    store.set_flag("FFlagA".to_string(), "true".to_string());
    store.set_flag("FLogC".to_string(), "0".to_string());
    store.set_flag("DFIntZ".to_string(), "9".to_string());
    assert_eq!(
        listing(&store),
        vec![
            entry("DFIntZ", "9", true),
            entry("FFlagA", "true", true),
            entry("FIntB", "2", true),
            entry("FLogC", "0", true),
        ]
    );
}

#[test]
fn set_flag_orders_by_code_point() {
    let mut store = FlagStore::new();
    store.set_flag("b".to_string(), "1".to_string());
    store.set_flag("B".to_string(), "2".to_string());
    store.set_flag("é".to_string(), "3".to_string());
    store.set_flag("ab".to_string(), "4".to_string());
    store.set_flag("a".to_string(), "5".to_string());
    let keys: Vec<String> = store.flags().iter().map(|f| f.key.clone()).collect();
    assert_eq!(keys, vec!["B", "a", "ab", "b", "é"]);
}

#[test]
fn set_flag_updates_existing_and_marks_dirty() {
    let mut store = FlagStore::new();
    assert!(store.parse_json(r#"{"A": 1, "B": "x"}"#).is_ok());
    store.set_flag("B".to_string(), "y".to_string());
    assert_eq!(listing(&store), vec![entry("A", "1", false), entry("B", "y", true)]);
}

#[test]
fn set_flag_same_value_leaves_flag_clean() {
    let mut store = FlagStore::new();
    assert!(store.parse_json(r#"{"A": 1}"#).is_ok());
    store.set_flag("A".to_string(), "1".to_string());
    assert_eq!(listing(&store), vec![entry("A", "1", false)]);
}

#[test]
fn set_flag_twice_is_set_once() {
    let mut once = FlagStore::new();
    once.set_flag("K".to_string(), "v".to_string());
    let mut twice = FlagStore::new();
    twice.set_flag("K".to_string(), "v".to_string());
    twice.set_flag("K".to_string(), "v".to_string());
    assert_eq!(listing(&once), listing(&twice));
}

#[test]
fn remove_flag_removes_only_that_key() {
    let mut store = FlagStore::new();
    store.set_flag("A".to_string(), "1".to_string());
    store.set_flag("B".to_string(), "2".to_string());
    store.set_flag("C".to_string(), "3".to_string());
    store.remove_flag("B");
    assert_eq!(listing(&store), vec![entry("A", "1", true), entry("C", "3", true)]);
    store.remove_flag("missing");
    assert_eq!(listing(&store), vec![entry("A", "1", true), entry("C", "3", true)]);
}

#[test]
fn remove_undoes_add_of_new_key() {
    let mut store = FlagStore::new();
    assert!(store.parse_json(r#"{"A": 1, "C": 2}"#).is_ok());
    let before = listing(&store);
    store.set_flag("B".to_string(), "new".to_string());
    assert!(store.contains_key("B"));
    store.remove_flag("B");
    assert!(!store.contains_key("B"));
    assert_eq!(listing(&store), before);
}

#[test]
fn parse_json_reads_every_value_type() {
    let mut store = FlagStore::new();
    let doc = r#"{"b": 1, "a": "x", "c": true, "d": 1.5, "e": null, "f": [1, 2], "g": {"h": "i"}}"#;
    assert!(store.parse_json(doc).is_ok());
    assert_eq!(
        listing(&store),
        vec![
            entry("a", "x", false),
            entry("b", "1", false),
            entry("c", "true", false),
            entry("d", "1.5", false),
            entry("e", "null", false),
            entry("f", "[1,2]", false),
            entry("g", "{\"h\":\"i\"}", false),
        ]
    );
}

#[test]
fn parse_json_unescapes_strings() {
    let mut store = FlagStore::new();
    assert!(store.parse_json(r#"{"k": "a\"b\u00e9"}"#).is_ok());
    assert_eq!(listing(&store), vec![entry("k", "a\"bé", false)]);
}

#[test]
fn parse_json_duplicate_key_keeps_last() {
    let mut store = FlagStore::new();
    assert!(store.parse_json(r#"{"k": 1, "k": 2}"#).is_ok());
    assert_eq!(listing(&store), vec![entry("k", "2", false)]);
}

#[test]
fn parse_json_invalid_text_is_an_error_and_keeps_flags() {
    let mut store = FlagStore::new();
    store.set_flag("A".to_string(), "1".to_string());
    let r = store.parse_json("{not json");
    match r {
        Err(e) => {
            assert!(matches!(e, StoreError::InvalidJson(_)));
            assert!(e.message().starts_with("Invalid JSON: "));
            assert!(e.message().len() > "Invalid JSON: ".len());
        }
        Ok(()) => panic!("expected an error"),
    }
    assert_eq!(listing(&store), vec![entry("A", "1", true)]);
}

#[test]
fn parse_json_non_object_root_is_an_error() {
    let mut store = FlagStore::new();
    store.set_flag("A".to_string(), "1".to_string());
    match store.parse_json("[1, 2]") {
        Err(e) => {
            assert!(matches!(e, StoreError::RootNotObject));
            assert_eq!(e.message(), "JSON root must be an object");
        }
        Ok(()) => panic!("expected an error"),
    }
    assert_eq!(listing(&store), vec![entry("A", "1", true)]);
}

#[test]
fn parse_json_empty_object_clears() {
    let mut store = FlagStore::new();
    store.set_flag("A".to_string(), "1".to_string());
    assert!(store.parse_json("{}").is_ok());
    assert!(store.flags().is_empty());
}

#[test]
fn mark_saved_clears_dirty_markers() {
    let mut store = FlagStore::new();
    store.set_flag("B".to_string(), "2".to_string());
    store.set_flag("A".to_string(), "1".to_string());
    store.mark_saved();
    assert_eq!(listing(&store), vec![entry("A", "1", false), entry("B", "2", false)]);
}

#[test]
fn edit_value_marks_dirty_and_keeps_key() {
    let mut store = FlagStore::new();
    assert!(store.parse_json(r#"{"A": 1, "B": 2}"#).is_ok());
    store.edit_value(1, "20".to_string());
    assert_eq!(listing(&store), vec![entry("A", "1", false), entry("B", "20", true)]);
}

#[test]
fn target_path_and_save_target() {
    let mut store = FlagStore::new();
    match store.save_target() {
        Err(e) => {
            assert!(matches!(e, StoreError::NoTargetPath));
            assert_eq!(e.message(), "No target path \u{2014} load or detect a Roblox version first.");
        }
        Ok(_) => panic!("expected an error"),
    }
    store.set_target_path("C:\\x\\ClientAppSettings.json".to_string());
    assert_eq!(store.target_path().as_deref(), Some("C:\\x\\ClientAppSettings.json"));
    match store.save_target() {
        Ok(p) => assert_eq!(p, "C:\\x\\ClientAppSettings.json"),
        Err(_) => panic!("expected a path"),
    }
}

#[test]
fn clear_flags_keeps_target() {
    let mut store = FlagStore::new();
    store.set_target_path("p".to_string());
    store.set_flag("A".to_string(), "1".to_string());
    store.clear_flags();
    assert!(store.flags().is_empty());
    assert_eq!(store.target_path().as_deref(), Some("p"));
}

#[test]
fn json_entries_type_each_value() {
    let mut store = FlagStore::new();
    store.set_flag("a".to_string(), "TRUE".to_string());
    store.set_flag("b".to_string(), "42".to_string());
    store.set_flag("c".to_string(), "3.14".to_string());
    store.set_flag("d".to_string(), "hello".to_string());
    let e = store.json_entries();
    assert_eq!(e.len(), 4);
    assert_eq!(e[0].0, "a");
    assert!(matches!(e[0].1, JsonScalar::Bool(true)));
    assert!(matches!(e[1].1, JsonScalar::Integer(42)));
    assert!(matches!(&e[2].1, JsonScalar::Decimal(t) if t == "3.14"));
    assert!(matches!(&e[3].1, JsonScalar::Text(t) if t == "hello"));
}

#[test]
fn load_missing_file_starts_empty() {
    let mut store = FlagStore::new();
    store.set_flag("A".to_string(), "1".to_string());
    let r = store.load("C:\\v\\ClientAppSettings.json".to_string(), None);
    assert_eq!(r, Ok("C:\\v\\ClientAppSettings.json (new \u{2014} created on Apply)".to_string()));
    assert!(store.flags().is_empty());
    assert_eq!(store.target_path().as_deref(), Some("C:\\v\\ClientAppSettings.json"));
}

#[test]
fn load_unreadable_file_reports_why() {
    let mut store = FlagStore::new();
    let r = store.load("p.json".to_string(), Some(Err("access denied".to_string())));
    assert_eq!(r, Err("Cannot read p.json: access denied".to_string()));
    assert_eq!(store.target_path().as_deref(), Some("p.json"));
}

#[test]
fn load_reads_and_parses() {
    let mut store = FlagStore::new();
    let r = store.load("p.json".to_string(), Some(Ok(r#"{"FLogNetwork": 0}"#.to_string())));
    assert_eq!(r, Ok("p.json".to_string()));
    assert_eq!(listing(&store), vec![entry("FLogNetwork", "0", false)]);
    let r = store.load("q.json".to_string(), Some(Ok("true".to_string())));
    assert_eq!(r, Err("JSON root must be an object".to_string()));
    assert_eq!(listing(&store), vec![entry("FLogNetwork", "0", false)]);
    assert_eq!(store.target_path().as_deref(), Some("q.json"));
    let r = store.load("q.json".to_string(), Some(Ok("{".to_string())));
    assert!(matches!(r, Err(ref m) if m.starts_with("Invalid JSON: ")));
}

#[test]
fn load_from_file_keeps_target() {
    let mut store = FlagStore::new();
    store.set_target_path("t.json".to_string());
    assert_eq!(store.load_from_file("preset.json", Ok(r#"{"B": "x"}"#.to_string())), Ok(()));
    assert_eq!(listing(&store), vec![entry("B", "x", false)]);
    assert_eq!(store.target_path().as_deref(), Some("t.json"));
    assert_eq!(
        store.load_from_file("preset.json", Err("gone".to_string())),
        Err("Cannot read preset.json: gone".to_string())
    );
    assert_eq!(listing(&store), vec![entry("B", "x", false)]);
}

#[test]
fn save_and_reset_outcomes() {
    let mut store = FlagStore::new();
    store.set_flag("A".to_string(), "1".to_string());
    assert_eq!(store.save(Err("full".to_string())), Err("full".to_string()));
    assert_eq!(listing(&store), vec![entry("A", "1", true)]);
    assert_eq!(store.save(Ok("p".to_string())), Ok("p".to_string()));
    assert_eq!(listing(&store), vec![entry("A", "1", false)]);
    assert_eq!(store.reset(Err("locked".to_string())), Err("locked".to_string()));
    assert_eq!(store.flags().len(), 1);
    assert_eq!(store.reset(Ok(())), Ok(()));
    assert!(store.flags().is_empty());
}

#[test]
fn json_to_str_shows_each_kind_of_value() {
    assert_eq!(json_to_str(&JsonValue::Null), "null");
    assert_eq!(json_to_str(&JsonValue::Bool(true)), "true");
    assert_eq!(json_to_str(&JsonValue::Bool(false)), "false");
    assert_eq!(json_to_str(&JsonValue::Number("1.5".to_string())), "1.5");
    assert_eq!(json_to_str(&JsonValue::Text("a\"b".to_string())), "a\"b");
    assert_eq!(json_to_str(&JsonValue::Array("[1,2]".to_string())), "[1,2]");
    assert_eq!(json_to_str(&JsonValue::Object("{}".to_string())), "{}");
}

#[test]
fn load_document_takes_an_object_and_refuses_anything_else() {
    let mut store = FlagStore::new();
    store.set_flag("A".to_string(), "1".to_string());
    assert!(matches!(
        store.load_document(JsonDocument::Other(JsonValue::Bool(true))),
        Err(StoreError::RootNotObject)
    ));
    assert_eq!(listing(&store), vec![entry("A", "1", true)]);
    let members = vec![
        ("b".to_string(), JsonValue::Null),
        ("a".to_string(), JsonValue::Text("x".to_string())),
    ];
    assert!(store.load_document(JsonDocument::Object(members)).is_ok());
    assert_eq!(listing(&store), vec![entry("a", "x", false), entry("b", "null", false)]);
}

#[test]
fn parse_json_scalar_roots_are_not_objects() {
    for doc in ["true", "null", "3", "\"s\"", " {\"a\": 1} "] {
        let mut store = FlagStore::new();
        let r = store.parse_json(doc);
        if doc.trim_start().starts_with('{') {
            assert!(r.is_ok());
        } else {
            assert!(matches!(r, Err(StoreError::RootNotObject)));
        }
    }
}

#[test]
fn invalid_json_message_is_the_parsers() {
    let doc = "{\"a\": tru}";
    let expected = serde_json::from_str::<serde_json::Value>(doc).unwrap_err().to_string();
    let mut store = FlagStore::new();
    match store.parse_json(doc) {
        Err(StoreError::InvalidJson(m)) => assert_eq!(m, expected),
        _ => panic!("expected invalid JSON"),
    }
    let r = store.load_from_file("p.json", Ok(doc.to_string()));
    assert_eq!(r, Err(format!("Invalid JSON: {expected}")));
}
