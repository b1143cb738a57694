use codex_chat_bridge::error::BridgeError;
use codex_chat_bridge::json::Json;
use serde_json::Value;

/// The document that a text denotes.
fn doc(text: &str) -> Value {
    serde_json::from_str(text).unwrap()
}

/// A document as the library holds it.
fn lib(value: &Value) -> Json {
    Json::from_serde(value.clone())
}

/// The body of the answer to an error.
fn envelope(err: &BridgeError) -> Value {
    err.envelope().to_serde()
}

#[test]
fn invalid_request_renders_400_envelope() {
    let err = BridgeError::invalid_request("bad n", "n_not_supported");
    assert_eq!(err.status(), 400);
    let env = envelope(&err);
    assert_eq!(env["error"]["message"], doc(r#""bad n""#));
    assert_eq!(env["error"]["type"], doc(r#""invalid_request_error""#));
    assert_eq!(env["error"]["code"], doc(r#""n_not_supported""#));
    assert!(env["error"].get("detail").is_none());
}

#[test]
fn upstream_defaults_to_502() {
    let err = BridgeError::upstream("boom", "upstream_network_error");
    assert_eq!(err.status(), 502);
    assert_eq!(envelope(&err)["error"]["type"], doc(r#""upstream_error""#));
}

#[test]
fn upstream_with_status_preserves_code_and_detail() {
    let detail = doc(r#"{"error": {"message": "rate limited"}}"#);
    let err = BridgeError::upstream_with_status(
        "rate limited",
        "upstream_request_failed",
        429,
        Some(lib(&detail)),
    );
    assert_eq!(err.status(), 429);
    assert_eq!(envelope(&err)["error"]["detail"], detail);
}

#[test]
fn upstream_with_invalid_status_falls_back_to_502() {
    let err = BridgeError::upstream_with_status("x", "c", 0, None);
    assert_eq!(err.status(), 502);
}

#[test]
fn unsupported_input_item_carries_item_type() {
    let err = BridgeError::UnsupportedInputItem {
        message: "nope".to_owned(),
        item_type: "mystery".to_owned(),
    };
    assert_eq!(err.status(), 400);
    let env = envelope(&err);
    assert_eq!(env["error"]["item_type"], doc(r#""mystery""#));
    assert_eq!(env["error"]["code"], doc(r#""unsupported_input_item""#));
}

#[test]
fn session_not_found_renders_404() {
    let err = BridgeError::SessionNotFound {
        message: "no such response".to_owned(),
    };
    assert_eq!(err.status(), 404);
    assert_eq!(
        envelope(&err)["error"]["code"],
        doc(r#""previous_response_not_found""#)
    );
}
