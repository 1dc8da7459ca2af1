use chunked_json::parse::{parse_json_text, parse_record_array};
use chunked_json::ser::serialize_records;
use chunked_json::value::{sort_key_of, JsonValue};

fn reserialized(text: &str) -> String {
    let records = parse_record_array(text.as_bytes()).expect("expected a JSON array");
    String::from_utf8(serialize_records(&records)).expect("serialized text must be UTF-8")
}

#[test]
fn test_parse_simple_array() {
    let records = parse_record_array(b"[1,true,null,\"x\"]").expect("should parse");
    assert_eq!(
        records,
        vec![
            JsonValue::Num(b"1".to_vec()),
            JsonValue::Bool(true),
            JsonValue::Null,
            JsonValue::Str(b"x".to_vec()),
        ]
    );
}

#[test]
fn test_parse_preserves_number_literals() {
    assert_eq!(reserialized("[1e3,0.5,-0,12.250,0,-12e-4,3E+2]"), "[1e3,0.5,-0,12.250,0,-12e-4,3E+2]");
}

#[test]
fn test_parse_preserves_string_escapes() {
    assert_eq!(reserialized(r#"["a\nb","\u0041","q\\\"t","\/"]"#), r#"["a\nb","\u0041","q\\\"t","\/"]"#);
}

#[test]
fn test_parse_whitespace_tolerated_and_dropped() {
    assert_eq!(reserialized(" [ 1 ,\t{ \"a\" : [ ] }\r\n, 2 ] "), r#"[1,{"a":[]},2]"#);
}

#[test]
fn test_parse_nested_structures() {
    let text = r#"[{"a":{"b":[1,{"c":null}],"d":false}},[[]],{}]"#;
    assert_eq!(reserialized(text), text);
}

#[test]
fn test_parse_rejects_trailing_comma() {
    assert!(parse_record_array(b"[1,]").is_none());
    assert!(parse_record_array(b"[{\"a\":1,}]").is_none());
}

#[test]
fn test_parse_rejects_unterminated_input() {
    assert!(parse_record_array(b"[1").is_none());
    assert!(parse_record_array(b"[\"abc").is_none());
    assert!(parse_record_array(b"tru").is_none());
}

#[test]
fn test_parse_rejects_trailing_garbage() {
    assert!(parse_record_array(b"[1] x").is_none());
    assert!(parse_json_text(b"null null").is_none());
}

#[test]
fn test_parse_rejects_non_array_top_level() {
    // valid JSON, but the record parser wants an array at the top
    assert!(parse_record_array(b"{\"a\":1}").is_none());
    assert!(parse_record_array(b"42").is_none());
    // the general document parser accepts it
    assert_eq!(parse_json_text(b"42"), Some(JsonValue::Num(b"42".to_vec())));
}

#[test]
fn test_parse_rejects_control_char_in_string() {
    assert!(parse_record_array(b"[\"a\nb\"]").is_none());
}

#[test]
fn test_parse_rejects_bad_numbers() {
    assert!(parse_record_array(b"[01]").is_none());
    assert!(parse_record_array(b"[1.]").is_none());
    assert!(parse_record_array(b"[.5]").is_none());
    assert!(parse_record_array(b"[1e]").is_none());
    assert!(parse_record_array(b"[+1]").is_none());
}

#[test]
fn test_parse_rejects_bad_escapes() {
    assert!(parse_record_array(b"[\"\\q\"]").is_none());
    assert!(parse_record_array(b"[\"\\u00g1\"]").is_none());
}

#[test]
fn test_object_duplicate_keys_kept_in_order() {
    let text = r#"[{"a":1,"a":2}]"#;
    assert_eq!(reserialized(text), text);
    let records = parse_record_array(text.as_bytes()).expect("should parse");
    // member access returns the first member with the key
    assert_eq!(records[0].get(b"a"), Some(&JsonValue::Num(b"1".to_vec())));
}

#[test]
fn test_get_and_sort_key() {
    let records = parse_record_array(br#"[{"k":"v","n":7}]"#).expect("should parse");
    let rec = &records[0];
    assert_eq!(rec.get(b"k"), Some(&JsonValue::Str(b"v".to_vec())));
    assert_eq!(rec.get(b"n"), Some(&JsonValue::Num(b"7".to_vec())));
    assert_eq!(rec.get(b"missing"), None);
    assert_eq!(sort_key_of(rec, b"k"), b"v".to_vec());
    // a non-string or missing field keys as the empty string
    assert_eq!(sort_key_of(rec, b"n"), Vec::<u8>::new());
    assert_eq!(sort_key_of(rec, b"missing"), Vec::<u8>::new());
}

#[test]
fn test_duplicate_is_deep_and_equal() {
    let records = parse_record_array(br#"[{"a":{"b":[1,"x"]}}]"#).expect("should parse");
    let copy = records[0].duplicate();
    assert_eq!(copy, records[0]);
}
