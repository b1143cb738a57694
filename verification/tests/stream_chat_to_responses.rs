use codex_chat_bridge::context::BridgeToolContext;
use codex_chat_bridge::decoder::Utf8StreamDecoder;
use codex_chat_bridge::json::{Json, Object};
use codex_chat_bridge::sse::parse_sse_block;
use codex_chat_bridge::stream_chat_to_responses::ChatStream;
use codex_chat_bridge::stream_chat_to_responses;
use serde_json::Value;

/// The document that a text denotes.
fn doc(text: &str) -> Value {
    serde_json::from_str(text).unwrap()
}

/// A document as the library holds it.
fn lib(value: &Value) -> Json {
    Json::from_serde(value.clone())
}

/// The frames of a Chat body that came as a whole.
fn sse_events_from_buffered_chat(
    chat: &Value,
    ctx: BridgeToolContext,
    response_id: Option<&str>,
    original: Option<&Object>,
) -> Vec<Vec<u8>> {
    stream_chat_to_responses::sse_events_from_buffered_chat(&lib(chat), ctx, response_id, original)
}

/// The frames of a Chat stream that came in the given pieces.
fn stream_frames(
    chunks: Vec<Vec<u8>>,
    ctx: BridgeToolContext,
    response_id: Option<&str>,
) -> Vec<Vec<u8>> {
    let mut stream = ChatStream::new(ctx, response_id, None);
    let mut out = Vec::new();
    for chunk in chunks {
        out.extend(stream.receive(&chunk));
    }
    out.extend(stream.finish());
    out
}

fn parse_event(bytes: &[u8]) -> (Option<String>, Value) {
    let text = String::from_utf8(bytes.to_vec()).unwrap();
    let (event, data) = parse_sse_block(&text);
    let value = data
        .filter(|d| d != "[DONE]")
        .map(|d| serde_json::from_str::<Value>(&d).unwrap())
        .unwrap_or(Value::Null);
    (event, value)
}

fn event_names(events: &[Vec<u8>]) -> Vec<String> {
    events.iter().filter_map(|e| parse_event(e).0).collect()
}

fn last_response(events: &[Vec<u8>]) -> Value {
    parse_event(events.last().unwrap()).1["response"].clone()
}

#[test]
fn decoder_holds_split_multibyte_across_chunks() {
    let mut d = Utf8StreamDecoder::new();
    // "€" is E2 82 AC; split after the first byte.
    assert_eq!(d.decode(&[0xE2]), "");
    assert_eq!(d.decode(&[0x82, 0xAC]), "€");
    assert_eq!(d.replacements(), 0);
}

#[test]
fn decoder_replaces_invalid_bytes() {
    let mut d = Utf8StreamDecoder::new();
    // 0xFF is never valid UTF-8.
    let out = d.decode(&[b'a', 0xFF, b'b']);
    assert_eq!(out, "a\u{FFFD}b");
    assert_eq!(d.replacements(), 1);
}

#[test]
fn decoder_finalize_replaces_incomplete_tail() {
    let mut d = Utf8StreamDecoder::new();
    assert_eq!(d.decode(&[0xE2]), "");
    assert_eq!(d.finalize(), "\u{FFFD}");
    assert_eq!(d.replacements(), 1);
}

#[test]
fn buffered_text_turn_completes() {
    let chat = doc(r#"{"model": "gpt-x", "choices": [{"message": {"role": "assistant", "content": "Hello"}, "finish_reason": "stop"}]}"#);
    let events =
        sse_events_from_buffered_chat(&chat, BridgeToolContext::new(), Some("resp_1"), None);
    let names = event_names(&events);
    assert_eq!(names.first().map(String::as_str), Some("response.created"));
    assert_eq!(names.last().map(String::as_str), Some("response.completed"));
    let resp = last_response(&events);
    assert_eq!(resp["status"], doc(r#""completed""#));
    assert_eq!(resp["output"][0]["content"][0]["text"], doc(r#""Hello""#));
}

#[test]
fn buffered_parallel_tool_calls_keep_distinct_indices() {
    let chat = doc(r#"{"choices": [{"message": {"role": "assistant", "content": null, "tool_calls": [{"id": "a", "type": "function", "function": {"name": "f", "arguments": "{}"}}, {"id": "b", "type": "function", "function": {"name": "g", "arguments": "{}"}}]}, "finish_reason": "tool_calls"}]}"#);
    let events =
        sse_events_from_buffered_chat(&chat, BridgeToolContext::new(), Some("resp_2"), None);
    let resp = last_response(&events);
    let output = resp["output"].as_array().unwrap();
    let fn_calls: Vec<&Value> = output
        .iter()
        .filter(|i| i["type"] == doc(r#""function_call""#))
        .collect();
    assert_eq!(fn_calls.len(), 2, "both parallel tool calls survive");
}

#[test]
fn streamed_chunks_produce_completed_turn() {
    let chunks: Vec<Vec<u8>> = vec![
        b"data: {\"choices\":[{\"delta\":{\"content\":\"Hel\"}}]}\n\n".to_vec(),
        b"data: {\"choices\":[{\"delta\":{\"content\":\"lo\"},\"finish_reason\":\"stop\"}]}\n\n".to_vec(),
        b"data: [DONE]\n\n".to_vec(),
    ];
    let events = stream_frames(chunks, BridgeToolContext::new(), Some("resp_3"));
    let resp = last_response(&events);
    assert_eq!(resp["status"], doc(r#""completed""#));
    assert_eq!(resp["output"][0]["content"][0]["text"], doc(r#""Hello""#));
}

#[test]
fn stream_split_across_frame_boundary_reassembles() {
    // A single SSE frame split across two byte chunks mid-JSON.
    let chunks: Vec<Vec<u8>> = vec![
        b"data: {\"choices\":[{\"delta\":{\"con".to_vec(),
        b"tent\":\"Hi\"},\"finish_reason\":\"stop\"}]}\n\n".to_vec(),
    ];
    let events = stream_frames(chunks, BridgeToolContext::new(), None);
    let resp = last_response(&events);
    assert_eq!(resp["output"][0]["content"][0]["text"], doc(r#""Hi""#));
}

#[test]
fn stream_without_done_finalizes_incomplete() {
    // Content but no finish_reason and no [DONE] — a mid-stream drop.
    let chunks: Vec<Vec<u8>> =
        vec![b"data: {\"choices\":[{\"delta\":{\"content\":\"partial\"}}]}\n\n".to_vec()];
    let events = stream_frames(chunks, BridgeToolContext::new(), None);
    let resp = last_response(&events);
    assert_eq!(resp["status"], doc(r#""incomplete""#));
    assert_eq!(
        resp["incomplete_details"]["reason"],
        doc(r#""stream_truncated""#)
    );
}

#[test]
fn stream_error_event_fails() {
    let chunks: Vec<Vec<u8>> = vec![
        b"event: error\ndata: {\"error\":{\"message\":\"boom\",\"type\":\"upstream_oops\"}}\n\n"
            .to_vec(),
    ];
    let events = stream_frames(chunks, BridgeToolContext::new(), None);
    let (last_event, last) = parse_event(events.last().unwrap());
    assert_eq!(last_event.as_deref(), Some("response.failed"));
    assert_eq!(last["response"]["error"]["type"], doc(r#""upstream_oops""#));
}

#[test]
fn inline_think_routes_through_buffered_path() {
    let chat = doc(r#"{"choices": [{"message": {"role": "assistant", "content": "<think>hmm</think>done"}, "finish_reason": "stop"}]}"#);
    let events = sse_events_from_buffered_chat(&chat, BridgeToolContext::new(), None, None);
    let names = event_names(&events);
    assert!(names
        .iter()
        .any(|n| n == "response.reasoning_summary_text.delta"));
    let resp = last_response(&events);
    let output = resp["output"].as_array().unwrap();
    assert_eq!(output[0]["type"], doc(r#""reasoning""#));
    assert_eq!(output[1]["content"][0]["text"], doc(r#""done""#));
}
