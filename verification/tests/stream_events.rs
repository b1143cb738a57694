use codex_chat_bridge::json::Json;
use codex_chat_bridge::sse::{extract_block, parse_sse_block};
use codex_chat_bridge::stream_events::{self, custom_input_done, function_arguments_done, output_text_delta, reasoning_summary_text_delta};
use serde_json::Value;

/// The document that a text denotes.
fn doc(text: &str) -> Value {
    serde_json::from_str(text).unwrap()
}

/// A document as the library holds it.
fn lib(value: &Value) -> Json {
    Json::from_serde(value.clone())
}

fn output_item_added(output_index: i64, item: Value) -> Vec<u8> {
    stream_events::output_item_added(output_index, lib(&item))
}

/// Parse a serialized event frame back into (event_name, payload).
fn parse(bytes: &[u8]) -> (String, Value) {
    let text = String::from_utf8(bytes.to_vec()).unwrap();
    let (block, rest) = extract_block(&text).expect("one complete frame");
    assert_eq!(rest, "", "exactly one frame per event");
    let (event, data) = parse_sse_block(&block);
    let payload: Value = serde_json::from_str(&data.expect("data line")).unwrap();
    (event.expect("event line"), payload)
}

#[test]
fn event_name_matches_payload_type() {
    let (event, payload) = parse(&output_item_added(0, doc(r#"{"id": "x"}"#)));
    assert_eq!(event, "response.output_item.added");
    assert_eq!(payload["type"], doc(r#""response.output_item.added""#));
    assert_eq!(payload["output_index"], doc(r#"0"#));
    assert_eq!(payload["item"], doc(r#"{"id": "x"}"#));
}

#[test]
fn reasoning_summary_events_carry_indices() {
    let (event, payload) = parse(&reasoning_summary_text_delta("rs_1", 2, 0, "think"));
    assert_eq!(event, "response.reasoning_summary_text.delta");
    assert_eq!(payload["item_id"], doc(r#""rs_1""#));
    assert_eq!(payload["output_index"], doc(r#"2"#));
    assert_eq!(payload["summary_index"], doc(r#"0"#));
    assert_eq!(payload["delta"], doc(r#""think""#));
}

#[test]
fn text_events_carry_content_index() {
    let (event, payload) = parse(&output_text_delta("msg_1", 1, 0, "hi"));
    assert_eq!(event, "response.output_text.delta");
    assert_eq!(payload["content_index"], doc(r#"0"#));
    assert_eq!(payload["delta"], doc(r#""hi""#));
}

#[test]
fn function_and_custom_input_events_render() {
    let (event, payload) = parse(&function_arguments_done("fc_1", 3, "{}"));
    assert_eq!(event, "response.function_call_arguments.done");
    assert_eq!(payload["arguments"], doc(r#""{}""#));

    let (event, payload) = parse(&custom_input_done("ctc_1", 4, "raw"));
    assert_eq!(event, "response.custom_tool_call_input.done");
    assert_eq!(payload["input"], doc(r#""raw""#));
}
