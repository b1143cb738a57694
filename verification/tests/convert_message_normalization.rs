use codex_chat_bridge::convert::message_normalization;
use codex_chat_bridge::json::{Json, Object};
use serde_json::Value;

/// The document that a text denotes.
fn doc(text: &str) -> Value {
    serde_json::from_str(text).unwrap()
}

/// A document as the library holds it.
fn lib(value: &Value) -> Json {
    Json::from_serde(value.clone())
}

/// Documents as the library holds them.
fn lib_list(values: &[Value]) -> Vec<Json> {
    values.iter().map(lib).collect()
}

/// Documents of the library as plain values.
fn plain(values: &Vec<Json>) -> Vec<Value> {
    values.iter().map(Json::to_serde).collect()
}

/// An object as the library holds it.
fn lib_object(map: &serde_json::Map<String, Value>) -> Object {
    match Json::from_serde(Value::Object(map.clone())) {
        Json::Object(o) => o,
        _ => unreachable!(),
    }
}

fn instruction_text(value: &Value) -> String {
    message_normalization::instruction_text(&lib(value))
}

fn flatten_text_content(content: &Value) -> String {
    message_normalization::flatten_text_content(&lib(content))
}

fn reasoning_item_text(item: &serde_json::Map<String, Value>) -> String {
    message_normalization::reasoning_item_text(&lib_object(item))
}

fn chat_message_content_from_response_content(content: Option<&Value>) -> Value {
    message_normalization::chat_message_content_from_response_content(content.map(lib).as_ref())
        .to_serde()
}

fn normalize_tool_output_content(output: Option<&Value>) -> String {
    message_normalization::normalize_tool_output_content(output.map(lib).as_ref())
}

fn sanitize_messages(messages: Vec<Value>) -> Vec<Value> {
    plain(&message_normalization::sanitize_messages(lib_list(&messages)))
}

fn collapse_system_messages_to_head(messages: Vec<Value>) -> Vec<Value> {
    plain(&message_normalization::collapse_system_messages_to_head(lib_list(&messages)))
}

fn append_reasoning_to_last_assistant(messages: &mut Vec<Value>, text: &str) -> bool {
    let mut list = lib_list(messages);
    let found = message_normalization::append_reasoning_to_last_assistant(&mut list, text);
    *messages = plain(&list);
    found
}

#[test]
fn message_normalization_instruction_text_from_string_and_array() {
    assert_eq!(instruction_text(&doc(r#""go""#)), "go");
    let arr = doc(r#"["one", {"text": "two"}, {"no_text": true}]"#);
    assert_eq!(instruction_text(&arr), "one\n\ntwo");
    assert_eq!(instruction_text(&Value::Null), "");
}
#[test]
fn message_normalization_flatten_text_content_variants() {
    assert_eq!(flatten_text_content(&doc(r#""s""#)), "s");
    assert_eq!(flatten_text_content(&Value::Null), "");
    let arr = doc(r#"["bare", {"type": "input_text", "text": "a"}, {"type": "output_text", "text": "b"}, {"type": "image", "text": "ignored"}]"#);
    assert_eq!(flatten_text_content(&arr), "bare\na\nb");
}
#[test]
fn message_normalization_reasoning_item_text_prefers_summary_list() {
    let item = doc(r#"{"summary": [{"text": "p1"}, {"text": "p2"}], "text": "ignored"}"#);
    assert_eq!(reasoning_item_text(item.as_object().unwrap()), "p1\n\np2");
}
#[test]
fn message_normalization_reasoning_item_text_falls_back_through_fields() {
    let item = doc(r#"{"reasoning_content": "rc"}"#);
    assert_eq!(reasoning_item_text(item.as_object().unwrap()), "rc");
    let enc = doc(r#"{"encrypted_content": "ec"}"#);
    assert_eq!(reasoning_item_text(enc.as_object().unwrap()), "ec");
    assert_eq!(reasoning_item_text(doc(r#"{}"#).as_object().unwrap()), "");
}
#[test]
fn message_normalization_chat_content_all_text_collapses_to_string() {
    let content = doc(r#"[{"type": "input_text", "text": "a"}, {"type": "text", "text": "b"}]"#);
    assert_eq!(
        chat_message_content_from_response_content(Some(&content)),
        doc(r#""a\nb""#)
    );
}
#[test]
fn message_normalization_chat_content_refusal_part_is_prefixed() {
    let content = doc(r#"[{"type": "refusal", "refusal": "no"}]"#);
    assert_eq!(
        chat_message_content_from_response_content(Some(&content)),
        doc(r#""[refusal]: no""#)
    );
}
#[test]
fn message_normalization_chat_content_empty_array_becomes_empty_string() {
    let content = doc(r#"[]"#);
    assert_eq!(
        chat_message_content_from_response_content(Some(&content)),
        doc(r#""""#)
    );
}
#[test]
fn message_normalization_tool_output_flattens_string_and_content_array() {
    assert_eq!(normalize_tool_output_content(Some(&doc(r#""raw""#))), "raw");
    let obj = doc(r#"{"content": [{"type": "output_text", "text": "flat"}]}"#);
    assert_eq!(normalize_tool_output_content(Some(&obj)), "flat");
    assert_eq!(normalize_tool_output_content(None), "");
}
#[test]
fn message_normalization_sanitize_drops_empty_assistant_to_separator() {
    let msgs = vec![doc(r#"{"role": "assistant", "reasoning_content": "rc"}"#)];
    let out = sanitize_messages(msgs);
    assert_eq!(out.len(), 1);
    assert_eq!(out[0]["role"], doc(r#""assistant""#));
    assert_eq!(out[0]["content"], doc(r#""""#));
    assert_eq!(out[0]["reasoning_content"], doc(r#""rc""#));
}
#[test]
fn message_normalization_sanitize_keeps_user_and_system_even_when_empty() {
    let msgs = vec![
        doc(r#"{"role": "user", "content": ""}"#),
        doc(r#"{"role": "system", "content": ""}"#),
    ];
    let out = sanitize_messages(msgs);
    assert_eq!(out.len(), 2);
}
#[test]
fn message_normalization_sanitize_keeps_assistant_with_tool_calls() {
    let msgs = vec![doc(r#"{"role": "assistant", "tool_calls": [{"id": "c", "function": {"name": "f", "arguments": "{}"}}]}"#)];
    let out = sanitize_messages(msgs);
    assert_eq!(out.len(), 1);
    assert!(out[0].get("tool_calls").is_some());
}
#[test]
fn message_normalization_sanitize_merges_adjacent_system_messages() {
    let msgs = vec![
        doc(r#"{"role": "system", "content": "a"}"#),
        doc(r#"{"role": "system", "content": "b"}"#),
    ];
    let out = sanitize_messages(msgs);
    assert_eq!(out.len(), 1);
    assert_eq!(out[0]["content"], doc(r#""a\n\nb""#));
}
#[test]
fn message_normalization_sanitize_cleans_control_chars_in_content() {
    let msgs = vec![doc(r#"{"role": "user", "content": "hi\u0000there"}"#)];
    let out = sanitize_messages(msgs);
    assert_eq!(out[0]["content"], doc(r#""hithere""#));
}
#[test]
fn message_normalization_sanitize_cleans_tool_call_function_fields() {
    let msgs = vec![doc(r#"{"role": "assistant", "tool_calls": [{"id": "c", "function": {"name": "f\u0000n", "arguments": "{\u0000}"}}]}"#)];
    let out = sanitize_messages(msgs);
    let f = &out[0]["tool_calls"][0]["function"];
    assert_eq!(f["name"], doc(r#""fn""#));
    assert_eq!(f["arguments"], doc(r#""{}""#));
}
#[test]
fn message_normalization_collapse_moves_all_system_text_to_head() {
    let msgs = vec![
        doc(r#"{"role": "user", "content": "u1"}"#),
        doc(r#"{"role": "system", "content": "s1"}"#),
        doc(r#"{"role": "assistant", "content": "a1"}"#),
        doc(r#"{"role": "system", "content": "s2"}"#),
    ];
    let out = collapse_system_messages_to_head(msgs);
    assert_eq!(out[0]["role"], doc(r#""system""#));
    assert_eq!(out[0]["content"], doc(r#""s1\n\ns2""#));
    assert_eq!(out[1]["role"], doc(r#""user""#));
    assert_eq!(out.len(), 3);
}
#[test]
fn message_normalization_collapse_no_system_leaves_messages_unchanged() {
    let msgs = vec![doc(r#"{"role": "user", "content": "u"}"#)];
    let out = collapse_system_messages_to_head(msgs.clone());
    assert_eq!(out, msgs);
}
#[test]
fn message_normalization_append_reasoning_backfills_last_assistant() {
    let mut msgs = vec![
        doc(r#"{"role": "user", "content": "u"}"#),
        doc(r#"{"role": "assistant", "content": "a"}"#),
    ];
    assert!(append_reasoning_to_last_assistant(&mut msgs, "why"));
    assert_eq!(msgs[1]["reasoning_content"], doc(r#""why""#));
}
#[test]
fn message_normalization_append_reasoning_concatenates_existing() {
    let mut msgs = vec![doc(r#"{"role": "assistant", "content": "a", "reasoning_content": "prev"}"#)];
    append_reasoning_to_last_assistant(&mut msgs, "next");
    assert_eq!(msgs[0]["reasoning_content"], doc(r#""prev\n\nnext""#));
}
#[test]
fn message_normalization_append_reasoning_stops_at_non_assistant_tail() {
    let mut msgs = vec![doc(r#"{"role": "user", "content": "u"}"#)];
    assert!(!append_reasoning_to_last_assistant(&mut msgs, "why"));
}
