use codex_chat_bridge::json::{Json, Object};
use codex_chat_bridge::types::ResponsesRequest;
use serde_json::Value;

/// The document that a text denotes.
fn doc(text: &str) -> Value {
    serde_json::from_str(text).unwrap()
}

/// An object of the library as a plain map.
fn plain_object(object: &Object) -> serde_json::Map<String, Value> {
    Json::Object(object.clone()).to_serde().as_object().unwrap().clone()
}

/// An object as the library holds it.
fn lib_object(map: &serde_json::Map<String, Value>) -> Object {
    match Json::from_serde(Value::Object(map.clone())) {
        Json::Object(o) => o,
        _ => unreachable!(),
    }
}

/// The request that a body says.
fn request(body: Value) -> ResponsesRequest {
    ResponsesRequest::from_object(&lib_object(body.as_object().unwrap())).unwrap()
}

fn req_from(body: Value) -> ResponsesRequest {
    request(body)
}

#[test]
fn echo_map_includes_only_present_named_fields() {
    let req = req_from(doc(r#"{"model": "m", "instructions": "be terse", "temperature": 0.5}"#));
    let echo = plain_object(&req.to_echo_map());
    assert_eq!(echo["instructions"], doc(r#""be terse""#));
    assert_eq!(echo["temperature"], doc(r#"0.5"#));
    // Absent named fields do not appear.
    assert!(echo.get("tools").is_none());
    assert!(echo.get("top_p").is_none());
    assert!(echo.get("max_output_tokens").is_none());
}

#[test]
fn echo_map_carries_tools_tool_choice_and_reasoning() {
    let req = req_from(doc(r#"{"model": "m", "tools": [{"type": "function", "name": "f"}], "tool_choice": {"type": "function", "name": "f"}, "reasoning": {"effort": "high"}, "max_output_tokens": 128}"#));
    let echo = plain_object(&req.to_echo_map());
    assert_eq!(echo["tools"][0]["name"], doc(r#""f""#));
    assert_eq!(echo["tool_choice"]["type"], doc(r#""function""#));
    assert_eq!(echo["reasoning"]["effort"], doc(r#""high""#));
    assert_eq!(echo["max_output_tokens"], doc(r#"128"#));
}

#[test]
fn echo_map_lifts_previous_response_id_and_extra_passthrough() {
    let req = req_from(doc(r#"{"model": "m", "previous_response_id": "resp_bridge_abc", "parallel_tool_calls": true, "metadata": {"trace": "x"}}"#));
    let echo = plain_object(&req.to_echo_map());
    assert_eq!(echo["previous_response_id"], doc(r#""resp_bridge_abc""#));
    assert_eq!(echo["parallel_tool_calls"], doc(r#"true"#));
    assert_eq!(echo["metadata"], doc(r#"{"trace": "x"}"#));
}

#[test]
fn echo_map_empty_when_only_model_present() {
    let req = req_from(doc(r#"{"model": "m"}"#));
    assert!(req.to_echo_map().is_empty());
}
