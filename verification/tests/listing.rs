use projson::{parse_json_object, DirectoryEntry, JsonProvider, JsonValue};

fn provider(text: &str) -> JsonProvider {
    JsonProvider::new(parse_json_object(text).unwrap())
}

fn file(name: &str, size: u64) -> DirectoryEntry {
    DirectoryEntry::File {
        name: name.to_string(),
        size,
    }
}

fn directory(name: &str) -> DirectoryEntry {
    DirectoryEntry::Directory {
        name: name.to_string(),
    }
}

#[test]
fn scenario_listing() {
    let provider = provider(r#"{"x": [1, "two", true], "y": null}"#);
    assert_eq!(
        provider.list_directory(""),
        vec![directory("x"), file("y", 0)]
    );
    assert_eq!(
        provider.list_directory("x"),
        vec![file("0", 1), file("1", 3), file("2", 4)]
    );
    assert_eq!(provider.list_directory("x/0"), vec![]);
    assert_eq!(JsonProvider::get_value_from_path(&provider.val, "z"), None);
    assert_eq!(provider.list_directory("z"), vec![]);
}

#[test]
fn listing_has_one_entry_per_child() {
    let provider = provider(
        r#"{"zeta": [[], {}, "s", 10, false, null], "alpha": {"m": 1, "b": {}, "a": []}}"#,
    );
    assert_eq!(
        provider.list_directory(""),
        vec![directory("zeta"), directory("alpha")]
    );
    assert_eq!(
        provider.list_directory("zeta"),
        vec![
            directory("0"),
            directory("1"),
            file("2", 1),
            file("3", 2),
            file("4", 5),
            file("5", 0),
        ]
    );
    assert_eq!(
        provider.list_directory("alpha"),
        vec![file("m", 1), directory("b"), directory("a")]
    );
    assert_eq!(provider.list_directory("zeta/0"), vec![]);
    assert_eq!(provider.list_directory("alpha/b"), vec![]);
}

#[test]
fn listing_names_long_arrays_in_order() {
    let items: Vec<JsonValue> = (0..120).map(|_| JsonValue::Null).collect();
    let provider = JsonProvider::new(JsonValue::Array(items));
    let entries = provider.list_directory("");
    assert_eq!(entries.len(), 120);
    for (index, entry) in entries.iter().enumerate() {
        assert_eq!(entry, &file(&index.to_string(), 0));
    }
}

#[test]
fn listed_entries_resolve_by_name() {
    let provider = provider(
        r#"{"a": [10, [20, 21], {"k": "v"}], "b": {"": 1, "x/": 2, "0": 3, "y\\": 4}, "c": "text"}"#,
    );
    for path in ["", "a", "a/1", "a/2", "b"] {
        let directory = JsonProvider::get_value_from_path(&provider.val, path).unwrap();
        for entry in provider.list_directory(path) {
            if entry.name().contains('/') || entry.name().contains('\\') {
                continue;
            }
            let name: Vec<char> = entry.name().chars().collect();
            let child = directory.child(&name).unwrap();
            assert_eq!(
                provider.value_to_entry(entry.name().to_string(), child),
                Some(entry.clone())
            );
            assert_eq!(entry.is_directory(), child.render().is_none());
        }
    }
}

#[test]
fn listing_of_what_is_no_directory_is_empty() {
    let provider = provider(r#"{"s": "text", "n": 5, "t": true, "z": null, "d": {}, "e": []}"#);
    for path in ["s", "n", "t", "z", "d", "e", "missing", "s/0", "d/x", "e/0"] {
        assert_eq!(provider.list_directory(path), vec![], "{}", path);
    }
}

#[test]
fn value_to_entry_sizes() {
    let provider = provider("null");
    let entry = |value: JsonValue| provider.value_to_entry("name".to_string(), &value);
    assert_eq!(entry(JsonValue::Null), Some(file("name", 0)));
    assert_eq!(entry(JsonValue::Bool(true)), Some(file("name", 4)));
    assert_eq!(entry(JsonValue::Bool(false)), Some(file("name", 5)));
    assert_eq!(
        entry(JsonValue::Number("-12.5".to_string())),
        Some(file("name", 5))
    );
    assert_eq!(
        entry(JsonValue::String("héllo".to_string())),
        Some(file("name", 6))
    );
    assert_eq!(
        entry(JsonValue::String("日本語".to_string())),
        Some(file("name", 9))
    );
    assert_eq!(
        entry(JsonValue::String("\"q\"\n".to_string())),
        Some(file("name", 4))
    );
    assert_eq!(entry(JsonValue::String(String::new())), Some(file("name", 0)));
    assert_eq!(entry(JsonValue::Array(vec![])), Some(directory("name")));
    assert_eq!(entry(JsonValue::Object(vec![])), Some(directory("name")));
}

#[test]
fn entry_projection_of_a_value() {
    assert_eq!(
        JsonValue::Bool(false).project("flag".to_string()),
        file("flag", 5)
    );
    assert_eq!(
        JsonValue::Array(vec![JsonValue::Null]).project("list".to_string()),
        directory("list")
    );
    assert_eq!(file("flag", 5).name(), "flag");
    assert_eq!(directory("list").name(), "list");
    assert!(directory("list").is_directory());
    assert!(!file("flag", 5).is_directory());
}
