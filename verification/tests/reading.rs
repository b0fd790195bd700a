use projson::{parse_json_object, JsonProvider, JsonValue, ReadError};

fn provider(text: &str) -> JsonProvider {
    JsonProvider::new(parse_json_object(text).unwrap())
}

#[test]
fn scenario_reading() {
    let provider = provider(r#"{"x": [1, "two", true], "y": null}"#);
    assert_eq!(
        provider.stream_file_content("x/1", 0, 3),
        Ok(b"two".to_vec())
    );
    assert_eq!(
        provider.stream_file_content("x/1", 1, 3),
        Err(ReadError::OutOfRange)
    );
    assert_eq!(provider.stream_file_content("y", 0, 0), Ok(vec![]));
    assert_eq!(
        provider.stream_file_content("z", 0, 0),
        Err(ReadError::NotFound)
    );
    assert_eq!(
        provider.stream_file_content("x", 0, 0),
        Err(ReadError::InvalidArgument)
    );
}

#[test]
fn whole_file_and_one_byte_more() {
    let provider = provider(
        r#"{"s": "héllo wörld", "n": -12.5, "t": true, "f": false, "z": null, "e": "", "a": ["x"]}"#,
    );
    let files: [(&str, &[u8]); 7] = [
        ("s", "héllo wörld".as_bytes()),
        ("n", b"-12.5"),
        ("t", b"true"),
        ("f", b"false"),
        ("z", b""),
        ("e", b""),
        ("a/0", b"x"),
    ];
    for (path, content) in files {
        let length = content.len() as u64;
        assert_eq!(
            provider.stream_file_content(path, 0, length),
            Ok(content.to_vec()),
            "{}",
            path
        );
        assert_eq!(
            provider.stream_file_content(path, 0, length + 1),
            Err(ReadError::OutOfRange),
            "{}",
            path
        );
        let value = JsonProvider::get_value_from_path(&provider.val, path).unwrap();
        assert_eq!(value.render(), Some(content.to_vec()));
        assert_eq!(value.size(), Some(length));
    }
}

#[test]
fn ranges_inside_a_file() {
    let provider = provider(r#"{"s": "0123456789"}"#);
    assert_eq!(provider.stream_file_content("s", 0, 0), Ok(vec![]));
    assert_eq!(provider.stream_file_content("s", 10, 0), Ok(vec![]));
    assert_eq!(provider.stream_file_content("s", 3, 4), Ok(b"3456".to_vec()));
    assert_eq!(provider.stream_file_content("s", 9, 1), Ok(b"9".to_vec()));
    assert_eq!(
        provider.stream_file_content("s", 0, 10),
        Ok(b"0123456789".to_vec())
    );
}

#[test]
fn ranges_past_the_end_are_refused() {
    let provider = provider(r#"{"s": "0123456789"}"#);
    let out_of_range = Err(ReadError::OutOfRange);
    assert_eq!(provider.stream_file_content("s", 0, 11), out_of_range);
    assert_eq!(provider.stream_file_content("s", 10, 1), out_of_range);
    assert_eq!(provider.stream_file_content("s", 11, 0), out_of_range);
    assert_eq!(provider.stream_file_content("s", 5, 6), out_of_range);
    assert_eq!(provider.stream_file_content("s", u64::MAX, 0), out_of_range);
    assert_eq!(provider.stream_file_content("s", 0, u64::MAX), out_of_range);
    assert_eq!(provider.stream_file_content("s", u64::MAX, 1), out_of_range);
    assert_eq!(
        provider.stream_file_content("s", u64::MAX, u64::MAX),
        out_of_range
    );
    assert_eq!(provider.stream_file_content("s", 1, u64::MAX), out_of_range);
}

#[test]
fn ranges_are_counted_in_bytes() {
    let provider = provider(r#"{"s": "aé日"}"#);
    let bytes = "aé日".as_bytes();
    assert_eq!(bytes.len(), 6);
    assert_eq!(provider.stream_file_content("s", 0, 6), Ok(bytes.to_vec()));
    assert_eq!(
        provider.stream_file_content("s", 1, 2),
        Ok("é".as_bytes().to_vec())
    );
    assert_eq!(
        provider.stream_file_content("s", 2, 2),
        Ok(vec![0xa9, 0xe6])
    );
    assert_eq!(
        provider.stream_file_content("s", 0, 7),
        Err(ReadError::OutOfRange)
    );
}

#[test]
fn directories_cannot_be_read() {
    let provider = provider(r#"{"o": {"k": 1}, "a": [1, 2], "eo": {}, "ea": []}"#);
    let ranges = [(0, 0), (0, 1), (1, 0), (5, 5), (u64::MAX, u64::MAX)];
    for path in ["", "o", "a", "eo", "ea"] {
        for (offset, length) in ranges {
            assert_eq!(
                provider.stream_file_content(path, offset, length),
                Err(ReadError::InvalidArgument),
                "{}",
                path
            );
        }
    }
}

#[test]
fn missing_files_are_not_found() {
    let provider = provider(r#"{"o": {"k": 1}, "a": [1, 2]}"#);
    for path in ["z", "o/z", "a/2", "a/x", "o/k/0", "o/", "/o"] {
        assert_eq!(
            provider.stream_file_content(path, 0, 0),
            Err(ReadError::NotFound),
            "{}",
            path
        );
        assert_eq!(
            provider.stream_file_content(path, 7, u64::MAX),
            Err(ReadError::NotFound),
            "{}",
            path
        );
    }
}

#[test]
fn strings_are_shown_without_quotes_or_escapes() {
    let provider = provider(r#"{"s": "a\"b\\c\ndA"}"#);
    let content = "a\"b\\c\ndA".as_bytes().to_vec();
    assert_eq!(
        provider.stream_file_content("s", 0, content.len() as u64),
        Ok(content)
    );
}

#[test]
fn false_is_shown_as_false() {
    let value = JsonValue::Bool(false);
    assert_eq!(value.text(), Some("false"));
    assert_eq!(value.render(), Some(b"false".to_vec()));
    assert_eq!(value.size(), Some(5));
    let value = JsonValue::Bool(true);
    assert_eq!(value.text(), Some("true"));
    assert_eq!(value.render(), Some(b"true".to_vec()));
    assert_eq!(value.size(), Some(4));
}

#[test]
fn directories_have_no_content() {
    for value in [JsonValue::Array(vec![]), JsonValue::Object(vec![])] {
        assert_eq!(value.text(), None);
        assert_eq!(value.render(), None);
        assert_eq!(value.size(), None);
    }
    assert_eq!(JsonValue::Null.text(), Some(""));
    assert_eq!(JsonValue::Null.render(), Some(vec![]));
    assert_eq!(JsonValue::Null.size(), Some(0));
}

#[test]
fn read_errors_have_messages() {
    assert_eq!(ReadError::NotFound.message(), "not found");
    assert_eq!(ReadError::InvalidArgument.message(), "invalid input");
    assert_eq!(ReadError::OutOfRange.message(), "invalid read operation");
}
