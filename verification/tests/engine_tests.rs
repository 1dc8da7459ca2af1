use chunked_json::codec::compress_json;
use chunked_json::engine::Engine;
use chunked_json::value::JsonValue;

fn gz(text: &str) -> Vec<u8> {
    compress_json(text.as_bytes()).expect("compression failed")
}

fn drain(engine: &mut Engine, max_len: usize) -> Vec<u8> {
    let mut out = Vec::new();
    loop {
        let (chunk, more) = engine.next_output_chunk(max_len);
        if !more {
            assert!(chunk.is_empty());
            break;
        }
        out.extend_from_slice(&chunk);
    }
    out
}

fn drain_skipping(engine: &mut Engine, max_len: usize) -> Vec<u8> {
    let mut out = Vec::new();
    loop {
        let (chunk, more) = engine.next_output_chunk_skipping(max_len);
        if !more {
            assert!(chunk.is_empty());
            break;
        }
        out.extend_from_slice(&chunk);
    }
    out
}

fn staged_string(engine: &mut Engine, max_len: usize) -> String {
    String::from_utf8(drain(engine, max_len)).expect("staged text must be UTF-8")
}

#[test]
fn test_run_action_on_processed_json() {
    let mut engine = Engine::new();
    assert!(engine.ingest_chunk(&gz(r#"[{"a":"z"},{"a":"a"},{"a":"m"}]"#)));
    assert!(engine.run_action("sort", r#"{"field":"a","dir":"asc"}"#));
    assert_eq!(staged_string(&mut engine, 4096), r#"[{"a":"a"},{"a":"m"},{"a":"z"}]"#);
}

#[test]
fn test_chunked_ingest_matches_whole() {
    // ingesting a partition of the array chunk by chunk, then acting,
    // gives the same output as ingesting the whole array at once
    let whole = r#"[{"a":"c"},{"a":"b"},{"a":"d"},{"a":"a"}]"#;
    let parts = [r#"[{"a":"c"},{"a":"b"}]"#, r#"[{"a":"d"}]"#, r#"[{"a":"a"}]"#];

    let mut one = Engine::new();
    assert!(one.ingest_chunk(&gz(whole)));
    assert!(one.run_action("sort", r#"{"field":"a","dir":"asc"}"#));
    let expected = staged_string(&mut one, 7);

    let mut many = Engine::new();
    for part in parts {
        assert!(many.ingest_chunk(&gz(part)));
    }
    assert!(many.run_action("sort", r#"{"field":"a","dir":"asc"}"#));
    assert_eq!(staged_string(&mut many, 7), expected);
}

#[test]
fn test_extraction_reconstructs_staged_text() {
    let mut engine = Engine::new();
    assert!(engine.ingest_chunk(&gz(r#"[{"k":"one"},{"k":"two"},{"k":"three"}]"#)));
    engine.stage_output();
    let expected = r#"[{"k":"one"},{"k":"two"},{"k":"three"}]"#;
    for max_len in [1, 2, 3, 7, 1000] {
        let mut clone = Engine::new();
        assert!(clone.ingest_chunk(&gz(r#"[{"k":"one"},{"k":"two"},{"k":"three"}]"#)));
        clone.stage_output();
        assert_eq!(staged_string(&mut clone, max_len), expected);
    }
    assert_eq!(staged_string(&mut engine, 5), expected);
}

#[test]
fn test_skipping_extraction_hands_out_same_bytes() {
    // the cursor overshoots past the end, but the bytes handed out match
    let mut a = Engine::new();
    assert!(a.ingest_chunk(&gz(r#"[{"k":"abcdefghij"}]"#)));
    a.stage_output();
    let mut b = Engine::new();
    assert!(b.ingest_chunk(&gz(r#"[{"k":"abcdefghij"}]"#)));
    b.stage_output();
    assert_eq!(drain_skipping(&mut a, 7), drain(&mut b, 7));
}

#[test]
fn test_ingest_malformed_chunk_sets_error() {
    let mut engine = Engine::new();
    assert!(!engine.ingest_chunk(b"definitely not a gzip stream"));
    let msg = engine.get_last_error();
    assert!(!msg.is_empty());
    assert!(msg.contains("DecodeError"));
    // the buffer stayed empty
    engine.stage_output();
    assert_eq!(staged_string(&mut engine, 100), "[]");
}

#[test]
fn test_ingest_non_array_sets_format_error() {
    let mut engine = Engine::new();
    assert!(!engine.ingest_chunk(&gz(r#"{"a":1}"#)));
    assert!(engine.get_last_error().contains("FormatError"));
}

#[test]
fn test_ingest_invalid_json_sets_format_error() {
    let mut engine = Engine::new();
    assert!(!engine.ingest_chunk(&gz(r#"[{"a":1},]"#)));
    assert!(engine.get_last_error().contains("FormatError"));
}

#[test]
fn test_malformed_action_params_sets_error() {
    let mut engine = Engine::new();
    assert!(engine.ingest_chunk(&gz(r#"[{"a":"x"}]"#)));
    assert!(!engine.run_action("sort", "certainly not json"));
    assert!(engine.get_last_error().contains("MalformedActionParameters"));
    // the buffer survived untouched
    engine.stage_output();
    assert_eq!(staged_string(&mut engine, 100), r#"[{"a":"x"}]"#);
}

#[test]
fn test_unknown_action_is_noop_but_stages() {
    let mut engine = Engine::new();
    assert!(engine.ingest_chunk(&gz(r#"[{"a":"z"},{"a":"a"}]"#)));
    assert!(engine.run_action("frobnicate", "{}"));
    assert_eq!(staged_string(&mut engine, 100), r#"[{"a":"z"},{"a":"a"}]"#);
}

#[test]
fn test_finalize_clears_staging_idempotently() {
    let mut engine = Engine::new();
    assert!(engine.ingest_chunk(&gz(r#"[{"a":"x"}]"#)));
    engine.stage_output();
    engine.finalize_output();
    let (chunk, more) = engine.next_output_chunk(100);
    assert!(chunk.is_empty());
    assert!(!more);
    engine.finalize_output();
    let (chunk2, more2) = engine.next_output_chunk(100);
    assert!(chunk2.is_empty());
    assert!(!more2);
}

#[test]
fn test_next_chunk_without_staging_returns_nothing() {
    let mut engine = Engine::new();
    let (chunk, more) = engine.next_output_chunk(16);
    assert!(chunk.is_empty());
    assert!(!more);
}

#[test]
fn test_replace_records_installs_new_buffer() {
    let mut engine = Engine::new();
    assert!(engine.ingest_chunk(&gz(r#"[{"a":"x"}]"#)));
    engine.replace_records(vec![JsonValue::Bool(true), JsonValue::Null]);
    engine.stage_output();
    assert_eq!(staged_string(&mut engine, 100), "[true,null]");
}

#[test]
fn test_records_exposes_buffer() {
    let mut engine = Engine::new();
    assert!(engine.ingest_chunk(&gz("[true,false]")));
    assert_eq!(
        engine.records(),
        &vec![JsonValue::Bool(true), JsonValue::Bool(false)]
    );
}

#[test]
fn test_empty_buffer_stages_empty_array() {
    let mut engine = Engine::new();
    engine.stage_output();
    assert_eq!(staged_string(&mut engine, 100), "[]");
}
