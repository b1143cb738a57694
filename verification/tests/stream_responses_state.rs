use codex_chat_bridge::context::BridgeToolContext;
use codex_chat_bridge::json::Json;
use codex_chat_bridge::stream_responses_state::ResponsesStreamState;
use serde_json::Value;

/// The document that a text denotes.
fn doc(text: &str) -> Value {
    serde_json::from_str(text).unwrap()
}

/// A document as the library holds it.
fn lib(value: &Value) -> Json {
    Json::from_serde(value.clone())
}

fn state() -> ResponsesStreamState {
    ResponsesStreamState::new(BridgeToolContext::new(), Some("resp_test"))
}

fn parse_event(bytes: &[u8]) -> (String, Value) {
    let text = String::from_utf8(bytes.to_vec()).unwrap();
    let mut event = String::new();
    let mut data = String::new();
    for line in text.lines() {
        if let Some(rest) = line.strip_prefix("event: ") {
            event = rest.to_owned();
        } else if let Some(rest) = line.strip_prefix("data: ") {
            data = rest.to_owned();
        }
    }
    let value = if data.is_empty() {
        Value::Null
    } else {
        serde_json::from_str(&data).unwrap()
    };
    (event, value)
}

fn event_types(events: &[Vec<u8>]) -> Vec<String> {
    events.iter().map(|e| parse_event(e).0).collect()
}

#[test]
fn ensure_started_emits_created_then_in_progress() {
    let mut s = state();
    let types = event_types(&s.ensure_started());
    assert_eq!(types, ["response.created", "response.in_progress"]);
    // Idempotent.
    assert!(s.ensure_started().is_empty());
}

#[test]
fn text_only_turn_finalizes_completed() {
    let mut s = state();
    s.ensure_started();
    s.set_finish_reason("stop");
    let deltas = s.push_content_delta("Hello world");
    assert!(!deltas.is_empty());
    let events = s.finalize(true);
    let (last_event, last) = parse_event(events.last().unwrap());
    assert_eq!(last_event, "response.completed");
    assert_eq!(last["response"]["status"], doc(r#""completed""#));
    // The message text made it into the output.
    let output = &last["response"]["output"];
    assert_eq!(output[0]["content"][0]["text"], doc(r#""Hello world""#));
}

#[test]
fn inline_think_routes_reasoning_then_text() {
    let mut s = state();
    s.ensure_started();
    s.set_finish_reason("stop");
    let mut events = s.push_content_delta("<think>pondering</think>answer");
    events.extend(s.finalize(true));
    let types = event_types(&events);
    // Reasoning item opened and closed, then message text, then completed.
    assert!(types
        .iter()
        .any(|t| t == "response.reasoning_summary_text.delta"));
    assert!(types.iter().any(|t| t == "response.output_text.delta"));
    let (_, last) = parse_event(events.last().unwrap());
    let output = &last["response"]["output"];
    // First output item is reasoning, second is the message.
    assert_eq!(output[0]["type"], doc(r#""reasoning""#));
    assert_eq!(output[1]["type"], doc(r#""message""#));
    assert_eq!(output[1]["content"][0]["text"], doc(r#""answer""#));
}

#[test]
fn tool_call_forces_pending_think_to_text() {
    let mut s = state();
    s.ensure_started();
    s.set_finish_reason("tool_calls");
    // A think block opens but never closes before the tool call arrives.
    s.push_content_delta("<think>deciding");
    let tool_call = doc(r#"{"index": 0, "id": "call_x", "function": {"name": "do_it", "arguments": "{}"}}"#);
    let events = s.push_tool_call_delta(&lib(&tool_call), None);
    let types = event_types(&events);
    // force_to_text finalized reasoning, then the tool item opened.
    assert!(types
        .iter()
        .any(|t| t == "response.reasoning_summary_text.done"));
    assert!(types.iter().any(|t| t == "response.output_item.added"));

    let events = s.finalize(true);
    let (_, last) = parse_event(events.last().unwrap());
    // finish_reason "tool_calls" maps to in_progress, not completed.
    assert_eq!(last["response"]["status"], doc(r#""in_progress""#));
    let output = &last["response"]["output"];
    // reasoning item + function_call item both present.
    let has_fn = output
        .as_array()
        .unwrap()
        .iter()
        .any(|item| item["type"] == doc(r#""function_call""#));
    assert!(has_fn);
}

#[test]
fn missing_finish_reason_without_clean_end_is_incomplete() {
    let mut s = state();
    s.ensure_started();
    s.push_content_delta("partial");
    // No finish_reason, mid-stream drop (not clean). truncated_event is
    // rendered as response.completed carrying status=incomplete.
    let events = s.finalize(false);
    let (last_event, last) = parse_event(events.last().unwrap());
    assert_eq!(last_event, "response.completed");
    assert_eq!(last["response"]["status"], doc(r#""incomplete""#));
    assert_eq!(
        last["response"]["incomplete_details"]["reason"],
        doc(r#""stream_truncated""#)
    );
}

#[test]
fn missing_finish_reason_with_clean_end_is_completed() {
    let mut s = state();
    s.ensure_started();
    s.push_content_delta("all good");
    // No finish_reason but the stream ended cleanly ([DONE]).
    let events = s.finalize(true);
    let (last_event, _) = parse_event(events.last().unwrap());
    assert_eq!(last_event, "response.completed");
}

#[test]
fn no_output_at_all_fails_truncated() {
    let mut s = state();
    s.ensure_started();
    // Nothing pushed, no finish_reason, not clean.
    let events = s.finalize(false);
    let (last_event, last) = parse_event(events.last().unwrap());
    assert_eq!(last_event, "response.failed");
    assert_eq!(last["response"]["error"]["type"], doc(r#""stream_truncated""#));
}

#[test]
fn stream_responses_state_finalize_is_idempotent() {
    let mut s = state();
    s.ensure_started();
    s.set_finish_reason("stop");
    s.push_content_delta("hi");
    assert!(!s.finalize(true).is_empty());
    assert!(s.finalize(true).is_empty());
}

#[test]
fn fail_flushes_and_emits_failed() {
    let mut s = state();
    s.ensure_started();
    s.push_content_delta("interrupted");
    let events = s.fail("boom", "stream_error");
    let (last_event, last) = parse_event(events.last().unwrap());
    assert_eq!(last_event, "response.failed");
    assert_eq!(last["response"]["error"]["type"], doc(r#""stream_error""#));
    // Guarded after completion.
    assert!(s.fail("again", "stream_error").is_empty());
}

#[test]
fn metadata_freezes_model_into_response() {
    let mut s = state();
    s.apply_chunk_metadata(&lib(&doc(r#"{"model": "gpt-x", "created": 123}"#)));
    s.ensure_started();
    s.set_finish_reason("stop");
    s.push_content_delta("ok");
    let events = s.finalize(true);
    let (_, last) = parse_event(events.last().unwrap());
    assert_eq!(last["response"]["model"], doc(r#""gpt-x""#));
}

#[test]
fn active_reasoning_text_for_tools_reflects_open_block() {
    let mut s = state();
    s.ensure_started();
    s.push_reasoning_delta("thinking hard");
    assert_eq!(s.active_reasoning_text_for_tools(), "thinking hard");
    s.finalize_reasoning_if_open();
    // Once finalized, no active text.
    assert_eq!(s.active_reasoning_text_for_tools(), "");
}
