use codex_chat_bridge::config::UnsupportedToolPolicy;
use codex_chat_bridge::context::BridgeToolContext;
use codex_chat_bridge::error::BridgeError;
use codex_chat_bridge::json::{Json, Object};
use codex_chat_bridge::session_bridge;
use codex_chat_bridge::session_store::{SessionStore, DEFAULT_MAX_SESSIONS, DEFAULT_TTL};
use codex_chat_bridge::types::ResponsesRequest;
use serde_json::Value;

/// The document that a text denotes.
fn doc(text: &str) -> Value {
    serde_json::from_str(text).unwrap()
}

/// A document as the library holds it.
fn lib(value: &Value) -> Json {
    Json::from_serde(value.clone())
}

/// An object as the library holds it.
fn lib_object(map: &serde_json::Map<String, Value>) -> Object {
    match Json::from_serde(Value::Object(map.clone())) {
        Json::Object(o) => o,
        _ => unreachable!(),
    }
}

/// The request that a body says.
fn request(body: Value) -> ResponsesRequest {
    ResponsesRequest::from_object(&lib_object(body.as_object().unwrap())).unwrap()
}

fn assistant_message_from_chat_body(body: &Value) -> Option<Value> {
    session_bridge::assistant_message_from_chat_body(&lib(body)).map(|m| m.to_serde())
}

/// What a request goes on from.
type Past = (Option<Vec<Json>>, Option<BridgeToolContext>, Option<String>);

/// What a request goes on from, in a store that is empty.
fn resolve_session(payload: &ResponsesRequest) -> Result<Past, BridgeError> {
    let mut store = SessionStore::new(DEFAULT_TTL, DEFAULT_MAX_SESSIONS);
    session_bridge::resolve_session(payload, &mut store, 0, UnsupportedToolPolicy::Ignore)
}

#[test]
fn assistant_message_from_text_body() {
    let body = doc(r#"{"choices": [{"message": {"role": "assistant", "content": "hello"}}]}"#);
    let msg = assistant_message_from_chat_body(&body).expect("message");
    assert_eq!(msg["role"], doc(r#""assistant""#));
    assert_eq!(msg["content"], doc(r#""hello""#));
}

#[test]
fn assistant_message_from_tool_call_body() {
    let body = doc(r#"{"choices": [{"message": {"role": "assistant", "content": null, "tool_calls": [{"id": "call_1", "type": "function", "function": {"name": "f", "arguments": "{}"}}]}}]}"#);
    let msg = assistant_message_from_chat_body(&body).expect("message");
    assert_eq!(msg["tool_calls"][0]["id"], doc(r#""call_1""#));
}

#[test]
fn refusal_becomes_content_when_no_text() {
    let body = doc(r#"{"choices": [{"message": {"role": "assistant", "refusal": "cannot"}}]}"#);
    let msg = assistant_message_from_chat_body(&body).expect("message");
    assert_eq!(msg["content"], doc(r#""[refusal]: cannot""#));
}

#[test]
fn empty_message_is_none() {
    let body = doc(r#"{"choices": [{"message": {"role": "assistant"}}]}"#);
    assert!(assistant_message_from_chat_body(&body).is_none());
}

#[test]
fn unexpected_role_coerced_to_assistant() {
    let body = doc(r#"{"choices": [{"message": {"role": "weird", "content": "x"}}]}"#);
    let msg = assistant_message_from_chat_body(&body).expect("message");
    assert_eq!(msg["role"], doc(r#""assistant""#));
}

fn req_from(body: Value) -> ResponsesRequest {
    request(body)
}

#[test]
fn no_previous_id_is_fresh_session() {
    let payload = req_from(doc(r#"{"model": "m"}"#));
    let (messages, ctx, model) = resolve_session(&payload).expect("ok");
    assert!(messages.is_none() && ctx.is_none() && model.is_none());
}

#[test]
fn unknown_previous_id_is_404() {
    let payload = req_from(doc(r#"{"model": "m", "previous_response_id": "resp_missing"}"#));
    let err = resolve_session(&payload).expect_err("should 404");
    assert!(matches!(err, BridgeError::SessionNotFound { .. }));
}
