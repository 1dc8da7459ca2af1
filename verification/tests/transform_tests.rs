use chunked_json::codec::compress_json;
use chunked_json::engine::Engine;
use chunked_json::filter::{apply_filter, FilterClause};
use chunked_json::parse::parse_record_array;
use chunked_json::ser::serialize_records;
use chunked_json::sort::sort_by_field;
use chunked_json::value::JsonValue;

fn gz_text(text: &str) -> Vec<u8> {
    compress_json(text.as_bytes()).expect("compression failed")
}

fn engine_with(text: &str) -> Engine {
    let mut engine = Engine::new();
    assert!(engine.ingest_chunk(&gz_text(text)));
    engine
}

fn full_output(engine: &mut Engine) -> String {
    let mut out = Vec::new();
    loop {
        let (chunk, more) = engine.next_output_chunk(64);
        if !more {
            break;
        }
        out.extend_from_slice(&chunk);
    }
    String::from_utf8(out).expect("staged text must be UTF-8")
}

fn records_of(text: &str) -> Vec<JsonValue> {
    parse_record_array(text.as_bytes()).expect("expected a JSON array")
}

fn rendered(records: &Vec<JsonValue>) -> String {
    String::from_utf8(serialize_records(records)).expect("serialized text must be UTF-8")
}

#[test]
fn test_sort_example_orders_records() {
    let mut engine = engine_with(r#"[{"a":"z"},{"a":"a"},{"a":"m"}]"#);
    assert!(engine.run_action("sort", r#"{"field":"a","dir":"asc"}"#));
    assert_eq!(full_output(&mut engine), r#"[{"a":"a"},{"a":"m"},{"a":"z"}]"#);
}

#[test]
fn test_sort_descending() {
    let mut engine = engine_with(r#"[{"a":"a"},{"a":"z"},{"a":"m"}]"#);
    assert!(engine.run_action("sort", r#"{"field":"a","dir":"desc"}"#));
    assert_eq!(full_output(&mut engine), r#"[{"a":"z"},{"a":"m"},{"a":"a"}]"#);
}

#[test]
fn test_sort_default_direction_is_descending() {
    let mut engine = engine_with(r#"[{"a":"a"},{"a":"z"},{"a":"m"}]"#);
    assert!(engine.run_action("sort", r#"{"field":"a"}"#));
    assert_eq!(full_output(&mut engine), r#"[{"a":"z"},{"a":"m"},{"a":"a"}]"#);
}

#[test]
fn test_sort_is_stable_ascending() {
    // records with equal keys keep their original relative order
    let input = records_of(r#"[{"k":"b","i":"1"},{"k":"a","i":"2"},{"k":"b","i":"3"},{"k":"a","i":"4"}]"#);
    let sorted = sort_by_field(input, b"k", true);
    assert_eq!(
        rendered(&sorted),
        r#"[{"k":"a","i":"2"},{"k":"a","i":"4"},{"k":"b","i":"1"},{"k":"b","i":"3"}]"#
    );
}

#[test]
fn test_sort_is_stable_descending() {
    // descending reverses the comparison only, never the tie-break
    let input = records_of(r#"[{"k":"b","i":"1"},{"k":"a","i":"2"},{"k":"b","i":"3"},{"k":"a","i":"4"}]"#);
    let sorted = sort_by_field(input, b"k", false);
    assert_eq!(
        rendered(&sorted),
        r#"[{"k":"b","i":"1"},{"k":"b","i":"3"},{"k":"a","i":"2"},{"k":"a","i":"4"}]"#
    );
}

#[test]
fn test_sort_missing_field_keeps_order() {
    // every key is the empty string, so the stable sort changes nothing
    let text = r#"[{"a":"z"},{"a":"a"},{"a":"m"}]"#;
    let sorted_asc = sort_by_field(records_of(text), b"nope", true);
    assert_eq!(rendered(&sorted_asc), text);
    let sorted_desc = sort_by_field(records_of(text), b"nope", false);
    assert_eq!(rendered(&sorted_desc), text);
}

#[test]
fn test_sort_non_string_values_key_as_empty() {
    // numbers at the sort field count as the empty key: order unchanged
    let text = r#"[{"a":3},{"a":1},{"a":2}]"#;
    let sorted = sort_by_field(records_of(text), b"a", true);
    assert_eq!(rendered(&sorted), text);
}

#[test]
fn test_filter_or_contains_example() {
    let mut engine = engine_with(r#"[{"tag":"red"},{"tag":"blue"}]"#);
    assert!(engine.run_action(
        "filter",
        r#"{"logic":"OR","filters":[{"field":"tag","operator":"contains","value":"red"}]}"#
    ));
    assert_eq!(full_output(&mut engine), r#"[{"tag":"red"}]"#);
}

#[test]
fn test_filter_and_requires_all_clauses() {
    let mut engine = engine_with(r#"[{"a":"x","b":"q"},{"a":"x","b":"r"},{"a":"z","b":"q"}]"#);
    assert!(engine.run_action(
        "filter",
        r#"{"logic":"AND","filters":[{"field":"a","operator":"contains","value":"x"},{"field":"b","operator":"contains","value":"q"}]}"#
    ));
    assert_eq!(full_output(&mut engine), r#"[{"a":"x","b":"q"}]"#);
}

#[test]
fn test_filter_zero_clauses_and_keeps_all() {
    // the documented outcome for an empty clause list under AND
    let mut engine = engine_with(r#"[{"a":"x"},{"a":"y"}]"#);
    assert!(engine.run_action("filter", r#"{"logic":"AND","filters":[]}"#));
    assert_eq!(full_output(&mut engine), r#"[{"a":"x"},{"a":"y"}]"#);
}

#[test]
fn test_filter_zero_clauses_or_keeps_none() {
    // the documented outcome for an empty clause list under OR
    let mut engine = engine_with(r#"[{"a":"x"},{"a":"y"}]"#);
    assert!(engine.run_action("filter", r#"{"logic":"OR","filters":[]}"#));
    assert_eq!(full_output(&mut engine), "[]");
}

#[test]
fn test_filter_unknown_logic_keeps_none() {
    let mut engine = engine_with(r#"[{"a":"x"}]"#);
    assert!(engine.run_action(
        "filter",
        r#"{"logic":"XOR","filters":[{"field":"a","operator":"contains","value":"x"}]}"#
    ));
    assert_eq!(full_output(&mut engine), "[]");
}

#[test]
fn test_filter_unknown_operator_fails_clause() {
    let mut engine = engine_with(r#"[{"a":"x"}]"#);
    assert!(engine.run_action(
        "filter",
        r#"{"logic":"OR","filters":[{"field":"a","operator":"equals","value":"x"}]}"#
    ));
    assert_eq!(full_output(&mut engine), "[]");
}

#[test]
fn test_filter_ill_shaped_payload_keeps_none() {
    // valid JSON of the wrong shape fails closed to an empty result
    let mut engine = engine_with(r#"[{"a":"x"}]"#);
    assert!(engine.run_action("filter", r#"{"logic":"OR","filters":"nope"}"#));
    assert_eq!(full_output(&mut engine), "[]");
}

#[test]
fn test_filter_missing_field_fails_clause() {
    let mut engine = engine_with(r#"[{"a":"x"},{"b":"x"}]"#);
    assert!(engine.run_action(
        "filter",
        r#"{"logic":"OR","filters":[{"field":"a","operator":"contains","value":"x"}]}"#
    ));
    assert_eq!(full_output(&mut engine), r#"[{"a":"x"}]"#);
}

#[test]
fn test_filter_contains_matches_rendered_text() {
    // the match runs over the serialized text of the field value, so a
    // numeric digit can be found inside a number
    let mut engine = engine_with(r#"[{"n":12345},{"n":99}]"#);
    assert!(engine.run_action(
        "filter",
        r#"{"logic":"OR","filters":[{"field":"n","operator":"contains","value":234}]}"#
    ));
    assert_eq!(full_output(&mut engine), r#"[{"n":12345}]"#);
}

#[test]
fn test_apply_filter_directly() {
    // the match runs over serialized text, so a string target carries its
    // quotes: "red" matches the field "red" but not "reddish"
    let records = records_of(r#"[{"t":"red"},{"t":"blue"},{"t":"reddish"}]"#);
    let clauses = vec![FilterClause {
        field: b"t".to_vec(),
        operator: b"contains".to_vec(),
        value: JsonValue::Str(b"red".to_vec()),
    }];
    let kept = apply_filter(records, &b"OR".to_vec(), &clauses);
    assert_eq!(rendered(&kept), r#"[{"t":"red"}]"#);
}
