use codex_chat_bridge::json::{Json, Object};
use codex_chat_bridge::sse::parse_sse_block;
use codex_chat_bridge::stream_envelope::ResponseEnvelopeState;
use serde_json::Value;

/// The document that a text denotes.
fn doc(text: &str) -> Value {
    serde_json::from_str(text).unwrap()
}

/// A document as the library holds it.
fn lib(value: &Value) -> Json {
    Json::from_serde(value.clone())
}

/// Documents of the library as plain values.
fn plain(values: &Vec<Json>) -> Vec<Value> {
    values.iter().map(Json::to_serde).collect()
}

/// An object as the library holds it.
fn lib_object(map: &serde_json::Map<String, Value>) -> Object {
    match Json::from_serde(Value::Object(map.clone())) {
        Json::Object(o) => o,
        _ => unreachable!(),
    }
}

/// Parse one serialized SSE event into `(event_name, response_object)`.
fn parse_event(bytes: &[u8]) -> (String, Value) {
    let text = String::from_utf8(bytes.to_vec()).unwrap();
    let (event, data) = parse_sse_block(&text);
    let payload: Value = serde_json::from_str(&data.unwrap()).unwrap();
    (event.unwrap(), payload["response"].clone())
}

fn echo_map(pairs: Value) -> Object {
    lib_object(pairs.as_object().unwrap())
}

#[test]
fn ensure_started_emits_created_then_in_progress_once() {
    let mut env = ResponseEnvelopeState::new(Some("resp_bridge_x"));
    let events = env.ensure_started();
    assert_eq!(events.len(), 2);
    let (e0, r0) = parse_event(&events[0]);
    let (e1, r1) = parse_event(&events[1]);
    assert_eq!(e0, "response.created");
    assert_eq!(e1, "response.in_progress");
    assert_eq!(r0["status"], doc(r#""in_progress""#));
    assert_eq!(r0["id"], doc(r#""resp_bridge_x""#));
    assert_eq!(r1["status"], doc(r#""in_progress""#));
    // Second call is a no-op.
    assert!(env.ensure_started().is_empty());
}

#[test]
fn base_response_echoes_only_present_fields() {
    let mut env = ResponseEnvelopeState::new(Some("r"));
    env.set_request_echo(Some(&echo_map(doc(r#"{"temperature": 0.5, "top_p": null}"#))));
    let events = env.ensure_started();
    let (_, resp) = parse_event(&events[0]);
    assert_eq!(resp["temperature"], doc(r#"0.5"#));
    // Null echo values are dropped, not seeded.
    assert!(resp.get("top_p").is_none());
}

#[test]
fn apply_metadata_freezes_first_model_and_maps_usage() {
    let mut env = ResponseEnvelopeState::new(None);
    env.apply_metadata(&lib(&doc(r#"{"model": "gpt-x", "created": 123}"#)));
    env.apply_metadata(&lib(&doc(r#"{"model": "other-alias"}"#)));
    env.apply_metadata(&lib(&doc(r#"{"usage": {"prompt_tokens": 10, "completion_tokens": 5}}"#)));
    assert_eq!(env.model, "gpt-x");
    assert_eq!(env.created_at, 123);
    let events = env.ensure_started();
    let (_, resp) = parse_event(&events[0]);
    assert_eq!(resp["model"], doc(r#""gpt-x""#));
    assert_eq!(resp["usage"]["input_tokens"], doc(r#"10"#));
    assert_eq!(resp["usage"]["output_tokens"], doc(r#"5"#));
    assert_eq!(resp["usage"]["total_tokens"], doc(r#"15"#));
}

#[test]
fn apply_metadata_ignores_empty_usage_and_zero_created() {
    let mut env = ResponseEnvelopeState::new(None);
    let before = env.created_at;
    env.apply_metadata(&lib(&doc(r#"{"created": 0, "usage": {}}"#)));
    assert_eq!(env.created_at, before);
    assert!(env.usage.is_none());
}

#[test]
fn completed_event_maps_finish_reason_to_status() {
    let mut env = ResponseEnvelopeState::new(Some("r"));
    env.finish_reason = Some("length".to_owned());
    let bytes = env.completed_event(vec![lib(&doc(r#"{"type": "message"}"#))]);
    let (event, resp) = parse_event(&bytes);
    assert_eq!(event, "response.completed");
    assert_eq!(resp["status"], doc(r#""incomplete""#));
    assert_eq!(
        resp["incomplete_details"],
        doc(r#"{"reason": "max_output_tokens"}"#)
    );
    assert_eq!(resp["output"][0]["type"], doc(r#""message""#));
}

#[test]
fn completed_event_without_finish_reason_is_completed() {
    let mut env = ResponseEnvelopeState::new(Some("r"));
    let bytes = env.completed_event(Vec::new());
    let (_, resp) = parse_event(&bytes);
    assert_eq!(resp["status"], doc(r#""completed""#));
    assert!(resp.get("incomplete_details").is_none());
}

#[test]
fn truncated_event_is_incomplete_with_stream_truncated() {
    let mut env = ResponseEnvelopeState::new(Some("r"));
    let bytes = env.truncated_event(Vec::new());
    let (event, resp) = parse_event(&bytes);
    assert_eq!(event, "response.completed");
    assert_eq!(resp["status"], doc(r#""incomplete""#));
    assert_eq!(
        resp["incomplete_details"],
        doc(r#"{"reason": "stream_truncated"}"#)
    );
}

#[test]
fn failed_event_carries_error_envelope() {
    let mut env = ResponseEnvelopeState::new(Some("r"));
    let bytes = env.failed_event("boom", "stream_error");
    let (event, resp) = parse_event(&bytes);
    assert_eq!(event, "response.failed");
    assert_eq!(resp["status"], doc(r#""failed""#));
    assert_eq!(
        resp["error"],
        doc(r#"{"message": "boom", "type": "stream_error"}"#)
    );
}

#[test]
fn output_index_allocation_is_monotonic() {
    let mut env = ResponseEnvelopeState::new(None);
    assert_eq!(env.allocate_output_index(), 0);
    assert_eq!(env.allocate_output_index(), 1);
    assert_eq!(env.allocate_output_index(), 2);
}

#[test]
fn completed_items_are_returned_in_index_order() {
    let mut env = ResponseEnvelopeState::new(None);
    env.append_completed_item(2, lib(&doc(r#"{"n": 2}"#)));
    env.append_completed_item(0, lib(&doc(r#"{"n": 0}"#)));
    env.append_completed_item(1, lib(&doc(r#"{"n": 1}"#)));
    let items = plain(&env.completed_output_items());
    assert_eq!(items[0]["n"], doc(r#"0"#));
    assert_eq!(items[1]["n"], doc(r#"1"#));
    assert_eq!(items[2]["n"], doc(r#"2"#));
}

#[test]
fn stream_envelope_item_ids_derive_from_response_id() {
    let env = ResponseEnvelopeState::new(Some("resp_bridge_abc"));
    assert_eq!(env.message_item_id(), "msg_resp_bridge_abc");
    assert_eq!(env.reasoning_item_id(), "rs_resp_bridge_abc");
}
