use chunked_json::codec::{compress_json, decompress_json, gzip_round_trip, CodecError};

#[test]
fn test_round_trip_text() {
    let samples = [
        "",
        "hello",
        r#"[{"a":"z"},{"a":"a"},{"a":"m"}]"#,
        "line one\nline two\ttabbed\r\n",
        "unicode: héllo wörld — ≤≥ 🦀",
    ];
    for text in samples {
        assert_eq!(gzip_round_trip(text).expect("round trip failed"), text);
    }
}

#[test]
fn test_compress_then_decompress_bytes() {
    let text = "a body of text long enough that gzip actually shrinks it, \
                a body of text long enough that gzip actually shrinks it";
    let compressed = compress_json(text.as_bytes()).expect("compression failed");
    let back = decompress_json(&compressed).expect("decompression failed");
    assert_eq!(back, text);
    // the compressed form is a real gzip stream, not the input handed back
    assert_ne!(compressed.as_slice(), text.as_bytes());
    assert!(compressed.len() >= 2);
    assert_eq!(compressed[0], 0x1f);
    assert_eq!(compressed[1], 0x8b);
}

#[test]
fn test_decompress_garbage_fails() {
    let r = decompress_json(&[0u8, 1, 2, 3, 4, 5, 6, 7]);
    assert_eq!(r, Err(CodecError::DecodeFailed));
}

#[test]
fn test_decompress_non_text_fails() {
    // well-formed gzip whose contents are not UTF-8 is still a decode failure
    let compressed = compress_json(&[0xff, 0xfe, 0x80]).expect("compression failed");
    let r = decompress_json(&compressed);
    assert_eq!(r, Err(CodecError::DecodeFailed));
}

#[test]
fn test_error_messages_nonempty() {
    assert!(!CodecError::CompressFailed.message().is_empty());
    assert!(!CodecError::DecodeFailed.message().is_empty());
}
