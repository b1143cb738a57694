use codex_chat_bridge::context::BridgeToolContext;
use codex_chat_bridge::convert::chat_to_responses;
use codex_chat_bridge::convert::semantics::echo_field_names;
use codex_chat_bridge::id_gen::synthetic_tool_call_ids;
use codex_chat_bridge::id_gen;
use codex_chat_bridge::json::{Json, Object};
use serde_json::Value;

/// The document that a text denotes.
fn doc(text: &str) -> Value {
    serde_json::from_str(text).unwrap()
}

/// A value as a document.
fn as_doc<T: Into<Value>>(value: T) -> Value {
    value.into()
}

/// A document as the library holds it.
fn lib(value: &Value) -> Json {
    Json::from_serde(value.clone())
}

/// Documents as the library holds them.
fn lib_list(values: &[Value]) -> Vec<Json> {
    values.iter().map(lib).collect()
}

/// Documents of the library as plain values.
fn plain(values: &Vec<Json>) -> Vec<Value> {
    values.iter().map(Json::to_serde).collect()
}

/// An object as the library holds it.
fn lib_object(map: &serde_json::Map<String, Value>) -> Object {
    match Json::from_serde(Value::Object(map.clone())) {
        Json::Object(o) => o,
        _ => unreachable!(),
    }
}

fn extract_reasoning_text(message: &Value) -> String {
    chat_to_responses::extract_reasoning_text(&lib(message))
}

fn message_content_parts(message: &Value) -> Vec<Value> {
    plain(&chat_to_responses::message_content_parts(&lib(message)))
}

fn output_text_from_parts(parts: &[Value]) -> String {
    chat_to_responses::output_text_from_parts(&lib_list(parts))
}

fn chat_tool_calls_to_response_items(
    message: &Value,
    reasoning: &str,
    ctx: &BridgeToolContext,
) -> Vec<Value> {
    let calls = message["tool_calls"].as_array().map_or(0, Vec::len);
    let fresh = synthetic_tool_call_ids(calls);
    plain(&chat_to_responses::chat_tool_calls_to_response_items(
        &lib(message),
        reasoning,
        ctx,
        &fresh,
    ))
}

fn tool_call_to_response_item(
    call_id: &str,
    name: &str,
    arguments: Option<&Value>,
    reasoning: &str,
    ctx: &BridgeToolContext,
) -> Value {
    chat_to_responses::tool_call_to_response_item(
        call_id,
        name,
        arguments.map(lib).as_ref(),
        reasoning,
        ctx,
    )
    .to_serde()
}

#[test]
fn chat_to_responses_reasoning_prefers_reasoning_content_field() {
    let msg = doc(r#"{"reasoning_content": " thinking ", "reasoning": "other"}"#);
    assert_eq!(extract_reasoning_text(&msg), "thinking");
}
#[test]
fn chat_to_responses_reasoning_falls_back_to_reasoning_field() {
    let msg = doc(r#"{"reasoning": " deduced "}"#);
    assert_eq!(extract_reasoning_text(&msg), "deduced");
}
#[test]
fn chat_to_responses_reasoning_extracts_inline_think_block() {
    let msg = doc(r#"{"content": "<think>step one</think>answer"}"#);
    assert_eq!(extract_reasoning_text(&msg), "step one");
}
#[test]
fn chat_to_responses_reasoning_absent_yields_empty() {
    let msg = doc(r#"{"content": "plain answer"}"#);
    assert_eq!(extract_reasoning_text(&msg), "");
}
#[test]
fn chat_to_responses_content_string_becomes_single_output_text_part() {
    let msg = doc(r#"{"content": "hello"}"#);
    let parts = message_content_parts(&msg);
    assert_eq!(parts.len(), 1);
    assert_eq!(parts[0]["type"], doc(r#""output_text""#));
    assert_eq!(parts[0]["text"], doc(r#""hello""#));
    assert_eq!(parts[0]["annotations"], doc(r#"[]"#));
}
#[test]
fn chat_to_responses_content_string_strips_inline_think_prefix() {
    let msg = doc(r#"{"content": "<think>reason</think>final"}"#);
    let parts = message_content_parts(&msg);
    assert_eq!(parts.len(), 1);
    assert_eq!(parts[0]["text"], doc(r#""final""#));
}
#[test]
fn chat_to_responses_content_array_merges_message_and_part_annotations() {
    let msg = doc(r#"{"annotations": [{"type": "url_citation", "url": "a"}], "content": [{"type": "output_text", "text": "hi", "annotations": [{"type": "url_citation", "url": "b"}]}]}"#);
    let parts = message_content_parts(&msg);
    assert_eq!(parts.len(), 1);
    let ann = parts[0]["annotations"].as_array().unwrap();
    assert_eq!(ann.len(), 2);
}
#[test]
fn chat_to_responses_content_array_refusal_part_is_preserved() {
    let msg = doc(r#"{"content": [{"type": "refusal", "refusal": "no"}]}"#);
    let parts = message_content_parts(&msg);
    assert_eq!(parts.len(), 1);
    assert_eq!(parts[0]["type"], doc(r#""refusal""#));
    assert_eq!(parts[0]["refusal"], doc(r#""no""#));
}
#[test]
fn chat_to_responses_top_level_refusal_field_appends_refusal_part() {
    let msg = doc(r#"{"content": "text", "refusal": "denied"}"#);
    let parts = message_content_parts(&msg);
    // output_text + refusal
    assert_eq!(parts.len(), 2);
    assert_eq!(parts[1]["type"], doc(r#""refusal""#));
    assert_eq!(parts[1]["refusal"], doc(r#""denied""#));
}
#[test]
fn chat_to_responses_empty_content_string_yields_no_parts() {
    let msg = doc(r#"{"content": ""}"#);
    assert!(message_content_parts(&msg).is_empty());
}
#[test]
fn chat_to_responses_output_text_joins_only_output_text_parts_with_newline() {
    let parts = vec![
        doc(r#"{"type": "output_text", "text": "a"}"#),
        doc(r#"{"type": "refusal", "refusal": "x"}"#),
        doc(r#"{"type": "output_text", "text": "b"}"#),
    ];
    assert_eq!(output_text_from_parts(&parts), "a\nb");
}
#[test]
fn chat_to_responses_tool_calls_become_function_call_items() {
    let msg = doc(r#"{"tool_calls": [{"id": "call_1", "function": {"name": "get_weather", "arguments": "{\"city\":\"Paris\"}"}}]}"#);
    let ctx = BridgeToolContext::new();
    let items = chat_tool_calls_to_response_items(&msg, "", &ctx);
    assert_eq!(items.len(), 1);
    assert_eq!(items[0]["type"], doc(r#""function_call""#));
    assert_eq!(items[0]["call_id"], doc(r#""call_1""#));
    assert_eq!(items[0]["name"], doc(r#""get_weather""#));
    assert_eq!(items[0]["status"], doc(r#""completed""#));
    // arguments canonicalized (sorted keys, single-key here).
    assert_eq!(items[0]["arguments"], doc(r#""{\"city\":\"Paris\"}""#));
}
#[test]
fn chat_to_responses_tool_call_item_carries_reasoning_when_present() {
    let ctx = BridgeToolContext::new();
    let item = tool_call_to_response_item("c1", "f", Some(&doc(r#""{}""#)), "why", &ctx);
    assert_eq!(item["reasoning_content"], doc(r#""why""#));
}
#[test]
fn chat_to_responses_tool_call_item_omits_reasoning_when_empty() {
    let ctx = BridgeToolContext::new();
    let item = tool_call_to_response_item("c1", "f", Some(&doc(r#""{}""#)), "", &ctx);
    assert!(item.get("reasoning_content").is_none());
}
#[test]
fn chat_to_responses_tool_call_missing_name_defaults_to_unknown_tool() {
    let msg = doc(r#"{"tool_calls": [{"id": "c", "function": {}}]}"#);
    let ctx = BridgeToolContext::new();
    let items = chat_tool_calls_to_response_items(&msg, "", &ctx);
    assert_eq!(items[0]["name"], doc(r#""unknown_tool""#));
}

// --- Top-level assembly (`chat_to_responses`) ---
//
// The tests above cover the part builders in isolation. These drive the
// `/v1/responses` path, so they pin the things only assembly can get
// wrong: output-item ORDER, the always-present echo-field shape, and the
// status/usage/model derivations.

fn convert(chat: Value, original: Option<Value>) -> Value {
    let ctx = BridgeToolContext::new();
    let original = original.map(|v| lib_object(v.as_object().unwrap()));
    chat_to_responses::chat_to_responses(
        &lib(&chat),
        "fallback-model",
        original.as_ref(),
        "resp_1",
        &ctx,
    )
    .to_serde()
}

#[test]
fn assembles_output_items_in_reasoning_message_tool_order() {
    // Order is protocol-visible: clients replay `output` as the turn's
    // item sequence, so reasoning must precede the message, which must
    // precede tool calls.
    let out = convert(
        doc(r#"{"choices": [{"message": {"reasoning_content": "why", "content": "answer", "tool_calls": [{"id": "call_1", "function": {"name": "do_it", "arguments": "{}"}}]}, "finish_reason": "tool_calls"}]}"#),
        None,
    );

    let types: Vec<&str> = out["output"]
        .as_array()
        .unwrap()
        .iter()
        .map(|i| i["type"].as_str().unwrap())
        .collect();
    assert_eq!(types, ["reasoning", "message", "function_call"]);
}

#[test]
fn omits_absent_sections_without_leaving_holes() {
    // No reasoning and no tool calls: `output` holds only the message,
    // rather than nulls or empty placeholders.
    let out = convert(
        doc(r#"{"choices": [{"message": {"content": "just text"}}]}"#),
        None,
    );

    let items = out["output"].as_array().unwrap();
    assert_eq!(items.len(), 1);
    assert_eq!(items[0]["type"], "message");
    assert_eq!(out["output_text"], "just text");
}

#[test]
fn always_emits_every_echo_field_even_when_request_is_absent() {
    // Absent fields must be present-and-null,
    // not missing keys.
    let out = convert(
        doc(r#"{"choices": [{"message": {"content": "x"}}]}"#),
        None,
    );

    for key in echo_field_names() {
        assert!(
            out.get(key).is_some(),
            "echo field {key} must be present (as null) even with no request"
        );
        assert!(
            out[key].is_null(),
            "echo field {key} should default to null"
        );
    }
}

#[test]
fn echoes_request_fields_over_the_null_seed() {
    let out = convert(
        doc(r#"{"choices": [{"message": {"content": "x"}}]}"#),
        Some(doc(r#"{"temperature": 0.5, "instructions": "be brief", "metadata": {"k": "v"}}"#)),
    );

    assert_eq!(out["temperature"], doc(r#"0.5"#));
    assert_eq!(out["instructions"], doc(r#""be brief""#));
    assert_eq!(out["metadata"], doc(r#"{"k": "v"}"#));
    // Unsent echo fields stay null rather than being dropped.
    assert!(out["top_p"].is_null());
}

#[test]
fn derives_envelope_from_chat_body_with_model_fallback() {
    let out = convert(
        doc(r#"{"created": 1234, "usage": {"prompt_tokens": 3, "completion_tokens": 4, "total_tokens": 7}, "choices": [{"message": {"content": "x"}, "finish_reason": "stop"}]}"#),
        None,
    );

    assert_eq!(out["id"], "resp_1");
    assert_eq!(out["object"], "response");
    assert_eq!(out["status"], "completed");
    assert_eq!(out["created_at"], doc(r#"1234"#));
    assert_eq!(out["usage"]["input_tokens"], doc(r#"3"#));
    assert_eq!(out["usage"]["output_tokens"], doc(r#"4"#));
    assert_eq!(out["usage"]["total_tokens"], doc(r#"7"#));
    assert!(out["incomplete_details"].is_null());
    // No `model` in the chat body → the caller's fallback is used.
    assert_eq!(out["model"], "fallback-model");
}

#[test]
fn upstream_model_wins_over_fallback() {
    let out = convert(
        doc(r#"{"model": "actual-model", "choices": [{"message": {"content": "x"}}]}"#),
        None,
    );
    assert_eq!(out["model"], "actual-model");
}

#[test]
fn length_finish_reason_marks_response_incomplete() {
    let out = convert(
        doc(r#"{"choices": [{"message": {"content": "truncated"}, "finish_reason": "length"}]}"#),
        None,
    );

    assert_eq!(out["status"], "incomplete");
    assert_eq!(out["incomplete_details"]["reason"], "max_output_tokens");
}

#[test]
fn malformed_chat_body_yields_a_well_formed_empty_response() {
    // A body with no choices must still produce a valid Responses object —
    // the handler returns this straight to the client.
    let out = convert(doc(r#"{}"#), None);

    assert_eq!(out["id"], "resp_1");
    assert_eq!(out["object"], "response");
    assert_eq!(out["output"], doc(r#"[]"#));
    assert_eq!(out["output_text"], "");
    assert!(out["created_at"].is_null());
}

#[test]
fn item_ids_are_derived_from_the_response_id() {
    // The streaming path emits the same ids for the same response id; if
    // these drift, a client correlating stream and non-stream turns breaks.
    let out = convert(
        doc(r#"{"choices": [{"message": {"reasoning_content": "r", "content": "c"}}]}"#),
        None,
    );

    let items = out["output"].as_array().unwrap();
    assert_eq!(items[0]["id"], as_doc(id_gen::reasoning_item_id("resp_1")));
    assert_eq!(items[1]["id"], as_doc(id_gen::message_item_id("resp_1")));
}
