use codex_chat_bridge::json::Json;
use codex_chat_bridge::reasoning_cache::ReasoningCache;
use codex_chat_bridge::reasoning_cache;
use serde_json::Value;

/// The document that a text denotes.
fn doc(text: &str) -> Value {
    serde_json::from_str(text).unwrap()
}

/// A document as the library holds it.
fn lib(value: &Value) -> Json {
    Json::from_serde(value.clone())
}

/// Documents as the library holds them.
fn lib_list(values: &[Value]) -> Vec<Json> {
    values.iter().map(lib).collect()
}

/// Documents of the library as plain values.
fn plain(values: &Vec<Json>) -> Vec<Value> {
    values.iter().map(Json::to_serde).collect()
}

fn chat_tool_call_id(call: &Value) -> String {
    reasoning_cache::chat_tool_call_id(&lib(call))
}

fn extract_reasoning_cache(messages: &[Value]) -> ReasoningCache {
    reasoning_cache::extract_reasoning_cache(&lib_list(messages))
}

fn apply_reasoning_cache(messages: &mut Vec<Value>, cache: &ReasoningCache) {
    *messages = plain(&reasoning_cache::apply_reasoning_cache(lib_list(messages), cache));
}

#[test]
fn chat_tool_call_id_prefers_id_then_call_id() {
    assert_eq!(chat_tool_call_id(&doc(r#"{"id": "a"}"#)), "a");
    assert_eq!(chat_tool_call_id(&doc(r#"{"call_id": "b"}"#)), "b");
    assert_eq!(chat_tool_call_id(&doc(r#"{"id": "", "call_id": "c"}"#)), "c");
    assert_eq!(chat_tool_call_id(&doc(r#"{}"#)), "");
}

#[test]
fn extract_maps_tool_call_ids_to_reasoning() {
    let messages = vec![doc(r#"{"role": "assistant", "reasoning_content": "because", "tool_calls": [{"id": "call_1", "type": "function", "function": {"name": "f", "arguments": "{}"}}, {"id": "call_2", "type": "function", "function": {"name": "g", "arguments": "{}"}}]}"#)];
    let cache = extract_reasoning_cache(&messages);
    assert_eq!(cache.get("call_1"), Some("because"));
    assert_eq!(cache.get("call_2"), Some("because"));
}

#[test]
fn extract_skips_blank_reasoning_and_non_tool_messages() {
    let messages = vec![
        doc(r#"{"role": "user", "content": "hi"}"#),
        doc(r#"{"role": "assistant", "reasoning_content": "   ", "tool_calls": [{"id": "call_1"}]}"#),
        doc(r#"{"role": "assistant", "content": "no tools", "reasoning_content": "x"}"#),
    ];
    assert!(extract_reasoning_cache(&messages).is_empty());
}

#[test]
fn apply_restores_missing_reasoning_from_first_hit() {
    let mut cache = ReasoningCache::new();
    cache.insert("call_1", "recovered");
    let mut messages = vec![doc(r#"{"role": "assistant", "tool_calls": [{"id": "call_1", "type": "function", "function": {"name": "f", "arguments": "{}"}}]}"#)];
    apply_reasoning_cache(&mut messages, &cache);
    assert_eq!(
        messages[0].get("reasoning_content").and_then(Value::as_str),
        Some("recovered")
    );
}

#[test]
fn apply_leaves_existing_reasoning_untouched() {
    let mut cache = ReasoningCache::new();
    cache.insert("call_1", "recovered");
    let mut messages = vec![doc(r#"{"role": "assistant", "reasoning_content": "original", "tool_calls": [{"id": "call_1"}]}"#)];
    apply_reasoning_cache(&mut messages, &cache);
    assert_eq!(
        messages[0].get("reasoning_content").and_then(Value::as_str),
        Some("original")
    );
}

#[test]
fn apply_is_noop_on_empty_cache() {
    let mut messages = vec![doc(r#"{"role": "assistant", "tool_calls": [{"id": "call_1"}]}"#)];
    apply_reasoning_cache(&mut messages, &ReasoningCache::new());
    assert!(messages[0].get("reasoning_content").is_none());
}
