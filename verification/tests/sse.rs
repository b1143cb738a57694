use codex_chat_bridge::json::Json;
use codex_chat_bridge::sse::{extract_block, parse_sse_block};
use codex_chat_bridge::sse;
use serde_json::Value;

/// The document that a text denotes.
fn doc(text: &str) -> Value {
    serde_json::from_str(text).unwrap()
}

/// A document as the library holds it.
fn lib(value: &Value) -> Json {
    Json::from_serde(value.clone())
}

fn serialize_event(event: Option<&str>, data: &Value) -> Vec<u8> {
    sse::serialize_event(event, &lib(data))
}

#[test]
fn extract_block_returns_frame_and_remainder() {
    let (block, rest) = extract_block("event: x\ndata: 1\n\nleftover").unwrap();
    assert_eq!(block, "event: x\ndata: 1");
    assert_eq!(rest, "leftover");
}

#[test]
fn extract_block_none_without_delimiter() {
    assert!(extract_block("event: x\ndata: 1\n").is_none());
}

#[test]
fn extract_block_normalizes_crlf() {
    let (block, rest) = extract_block("data: a\r\n\r\ndata: b\r\n\r\n").unwrap();
    assert_eq!(block, "data: a");
    // Remainder is already LF-normalized for the next scan.
    assert_eq!(rest, "data: b\n\n");
}

#[test]
fn parse_block_splits_event_and_data() {
    let (event, data) = parse_sse_block("event: response.created\ndata: {\"a\":1}");
    assert_eq!(event.as_deref(), Some("response.created"));
    assert_eq!(data.as_deref(), Some("{\"a\":1}"));
}

#[test]
fn parse_block_joins_multiple_data_lines() {
    let (_, data) = parse_sse_block("data: line1\ndata: line2");
    assert_eq!(data.as_deref(), Some("line1\nline2"));
}

#[test]
fn parse_block_strips_only_one_leading_space() {
    let (_, data) = parse_sse_block("data:  two-space");
    // One space consumed, one preserved.
    assert_eq!(data.as_deref(), Some(" two-space"));
}

#[test]
fn parse_block_without_fields_is_empty() {
    let (event, data) = parse_sse_block(": comment only");
    assert!(event.is_none());
    assert!(data.is_none());
}

#[test]
fn serialize_event_with_name() {
    let bytes = serialize_event(Some("response.created"), &doc(r#"{"id": "r1"}"#));
    assert_eq!(
        String::from_utf8(bytes).unwrap(),
        "event: response.created\ndata: {\"id\":\"r1\"}\n\n"
    );
}

#[test]
fn serialize_event_without_name_omits_event_line() {
    let bytes = serialize_event(None, &doc(r#"{"x": 1}"#));
    assert_eq!(String::from_utf8(bytes).unwrap(), "data: {\"x\":1}\n\n");
}

#[test]
fn serialize_event_preserves_non_ascii() {
    let bytes = serialize_event(None, &doc(r#"{"msg": "café"}"#));
    assert_eq!(
        String::from_utf8(bytes).unwrap(),
        "data: {\"msg\":\"café\"}\n\n"
    );
}

#[test]
fn round_trip_extract_then_parse() {
    let frame = serialize_event(Some("response.completed"), &doc(r#"{"status": "ok"}"#));
    let buffer = String::from_utf8(frame).unwrap();
    let (block, rest) = extract_block(&buffer).unwrap();
    assert!(rest.is_empty());
    let (event, data) = parse_sse_block(&block);
    assert_eq!(event.as_deref(), Some("response.completed"));
    assert_eq!(data.as_deref(), Some("{\"status\":\"ok\"}"));
}
