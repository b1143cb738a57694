use codex_chat_bridge::convert::semantics::response_status_from_finish_reason;
use codex_chat_bridge::convert::semantics;
use codex_chat_bridge::json::Json;
use serde_json::Value;

/// The document that a text denotes.
fn doc(text: &str) -> Value {
    serde_json::from_str(text).unwrap()
}

/// A document as the library holds it.
fn lib(value: &Value) -> Json {
    Json::from_serde(value.clone())
}

/// The usage of a response.
fn map_chat_usage(usage: Option<&Value>) -> Value {
    semantics::map_chat_usage(usage.map(lib).as_ref()).to_serde()
}

/// Why a turn is incomplete.
fn incomplete_reason_from_finish_reason(reason: Option<&str>) -> Option<Value> {
    semantics::incomplete_reason_from_finish_reason(reason).map(|r| r.to_serde())
}

#[test]
fn semantics_status_from_finish_reason_matches_python_table() {
    assert_eq!(
        response_status_from_finish_reason(Some("tool_calls")).as_str(),
        "in_progress"
    );
    assert_eq!(
        response_status_from_finish_reason(Some("length")).as_str(),
        "incomplete"
    );
    assert_eq!(
        response_status_from_finish_reason(Some("content_filter")).as_str(),
        "incomplete"
    );
    assert_eq!(
        response_status_from_finish_reason(Some("stop")).as_str(),
        "completed"
    );
    assert_eq!(
        response_status_from_finish_reason(None).as_str(),
        "completed"
    );
}
#[test]
fn semantics_incomplete_reason_only_for_length_and_filter() {
    assert_eq!(
        incomplete_reason_from_finish_reason(Some("length")),
        Some(doc(r#"{"reason": "max_output_tokens"}"#))
    );
    assert_eq!(
        incomplete_reason_from_finish_reason(Some("content_filter")),
        Some(doc(r#"{"reason": "content_filter"}"#))
    );
    assert_eq!(incomplete_reason_from_finish_reason(Some("stop")), None);
    assert_eq!(incomplete_reason_from_finish_reason(None), None);
}
#[test]
fn semantics_usage_missing_yields_zeroed_object() {
    assert_eq!(
        map_chat_usage(None),
        doc(r#"{"input_tokens": 0, "output_tokens": 0, "total_tokens": 0}"#)
    );
}
#[test]
fn semantics_usage_takes_max_of_old_and_new_token_fields() {
    let usage = doc(r#"{"prompt_tokens": 10, "completion_tokens": 20, "input_tokens": 0, "output_tokens": 0}"#);
    let out = map_chat_usage(Some(&usage));
    assert_eq!(out["input_tokens"], doc(r#"10"#));
    assert_eq!(out["output_tokens"], doc(r#"20"#));
    assert_eq!(out["total_tokens"], doc(r#"30"#));
}
#[test]
fn semantics_usage_prefers_explicit_total_when_larger() {
    let usage = doc(r#"{"prompt_tokens": 5, "completion_tokens": 5, "total_tokens": 99}"#);
    let out = map_chat_usage(Some(&usage));
    assert_eq!(out["total_tokens"], doc(r#"99"#));
}
#[test]
fn semantics_usage_carries_token_details_from_either_naming() {
    let usage = doc(r#"{"prompt_tokens": 1, "completion_tokens": 1, "prompt_tokens_details": {"cached_tokens": 3}, "completion_tokens_details": {"reasoning_tokens": 7}}"#);
    let out = map_chat_usage(Some(&usage));
    assert_eq!(out["input_tokens_details"], doc(r#"{"cached_tokens": 3}"#));
    assert_eq!(
        out["output_tokens_details"],
        doc(r#"{"reasoning_tokens": 7}"#)
    );
}
