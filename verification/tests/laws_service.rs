use codex_chat_bridge::compat::{initial_state, next_retry, MAX_COMPAT_HOPS};
use codex_chat_bridge::config::UnsupportedToolPolicy;
use codex_chat_bridge::context::{build_tool_context_from_request, BridgeToolContext};
use codex_chat_bridge::convert::chat_to_responses::chat_to_responses;
use codex_chat_bridge::convert::responses_to_chat::{
    drain_transform_loss, responses_to_chat, responses_to_chat_with_session,
};
use codex_chat_bridge::error::BridgeError;
use codex_chat_bridge::json::{Json, Object};
use codex_chat_bridge::metrics::stream_label;
use codex_chat_bridge::middleware::{
    authorize, declares_too_much, is_concurrency_limited, resolve_request_id,
};
use codex_chat_bridge::reasoning_cache::{apply_reasoning_cache, extract_reasoning_cache};
use codex_chat_bridge::service::{complete, prepare, stream_persist};
use codex_chat_bridge::session_store::{SessionStore, DEFAULT_MAX_SESSIONS, DEFAULT_TTL};
use codex_chat_bridge::stream_chat_to_responses::ChatStream;
use codex_chat_bridge::types::ResponsesRequest;
use codex_chat_bridge::upstream::{
    model_list, unstreamed, upstream_failure, validate_relay_body, Delivery, NextStep, Relay,
};
use serde_json::Value;

/// An object by its text.
fn object(text: &str) -> Object {
    match Json::parse(text).unwrap() {
        Json::Object(o) => o,
        _ => unreachable!(),
    }
}

/// A request by its text.
fn request(text: &str) -> ResponsesRequest {
    ResponsesRequest::from_object(&object(text)).unwrap()
}

fn store() -> SessionStore {
    SessionStore::new(DEFAULT_TTL, DEFAULT_MAX_SESSIONS)
}

const IGNORE: UnsupportedToolPolicy = UnsupportedToolPolicy::Ignore;

#[test]
fn requests_need_fields_of_the_right_type() {
    for text in [
        r#"{"model": 5}"#,
        r#"{"previous_response_id": []}"#,
        r#"{"stream": null}"#,
        r#"{"stream": "yes"}"#,
        r#"{"max_output_tokens": 1.5}"#,
        r#"{"max_output_tokens": 9223372036854775808}"#,
        r#"{"n": "1"}"#,
    ] {
        assert!(ResponsesRequest::from_object(&object(text)).is_none(), "{text}");
    }
    let req = request(
        r#"{"model": null, "input": null, "n": -1, "stream": true, "seed": 4, "text": {"a": 1}}"#,
    );
    assert!(req.model.is_none() && req.input.is_none() && req.stream);
    assert_eq!(req.n, Some(-1));
    assert_eq!(req.text.unwrap().render(), r#"{"a":1}"#);
    assert_eq!(Json::Object(req.extra).render(), r#"{"seed":4}"#);
}

#[test]
fn requests_that_cannot_be_served_are_refused() {
    let refused = |text: &str| prepare(&request(text), &mut store(), 0, IGNORE).unwrap_err();
    let err = refused(r#"{"model": "m", "n": 2}"#);
    assert_eq!((err.status(), err.code()), (400, "unsupported_n"));
    let err = refused(r#"{"input": "hi"}"#);
    assert_eq!((err.status(), err.code()), (400, "missing_model"));
    let err = refused(r#"{"model": "  "}"#);
    assert_eq!(err.code(), "missing_model");
    let err = refused(r#"{"model": "m", "previous_response_id": "resp_x"}"#);
    assert_eq!((err.status(), err.code()), (404, "previous_response_not_found"));
    assert_eq!(err.message(), "Previous response resp_x not found.");
}

#[test]
fn kept_turns_are_continued() {
    let mut store = store();
    let first = request(
        r#"{"model": " m1 ", "input": "hi", "tools": [{"type": "function", "name": "f"}]}"#,
    );
    let prepared = prepare(&first, &mut store, 10, IGNORE).unwrap();
    assert_eq!(prepared.model, "m1");
    let answer = Json::parse(
        r#"{"choices": [{"message": {"role": "assistant", "content": null,
            "reasoning_content": "why",
            "tool_calls": [{"id": "c1", "type": "function",
                "function": {"name": "f", "arguments": "{}"}}]},
            "finish_reason": "tool_calls"}]}"#,
    )
    .unwrap();
    let response = complete(&prepared, &answer, "resp_1", &mut store, 10).to_serde();
    assert_eq!(response["id"], "resp_1");
    assert_eq!(response["status"], "in_progress");
    assert_eq!(store.active_count(), 1);

    let second = request(
        r#"{"previous_response_id": "resp_1",
            "input": [{"type": "function_call", "call_id": "c1", "name": "f"},
                {"type": "input_text", "text": "go on"}],
            "tools": [{"type": "function", "name": "g"}]}"#,
    );
    let prepared = prepare(&second, &mut store, 20, IGNORE).unwrap();
    assert_eq!(prepared.model, "m1");
    let body = Json::Object(prepared.chat.body.clone()).to_serde();
    let roles: Vec<&str> = body["messages"]
        .as_array()
        .unwrap()
        .iter()
        .map(|m| m["role"].as_str().unwrap())
        .collect();
    assert_eq!(roles, ["user", "assistant", "user"]);
    assert_eq!(
        drain_transform_loss(&prepared.losses).unwrap().labels[0].1,
        "function_call"
    );
    assert_eq!(body["messages"][1]["reasoning_content"], "why");
    assert_eq!(body["tools"].as_array().unwrap().len(), 2);

    let late = prepare(&second, &mut store, 30 + DEFAULT_TTL, IGNORE).unwrap_err();
    assert_eq!(late.status(), 404);
    assert_eq!(store.active_count(), 0);
}

#[test]
fn cut_turns_are_not_continued() {
    let mut store = store();
    let prepared = prepare(&request(r#"{"model": "m", "input": "hi"}"#), &mut store, 0, IGNORE).unwrap();
    for text in [
        r#"{"choices": [{"message": {"content": "x"}, "finish_reason": "length"}]}"#,
        r#"{"choices": [{"message": {"content": ""}, "finish_reason": "stop"}]}"#,
        "{}",
    ] {
        complete(&prepared, &Json::parse(text).unwrap(), "r", &mut store, 1);
        assert_eq!(store.active_count(), 0, "{text}");
    }
}

#[test]
fn streamed_turns_are_kept_when_they_are_over() {
    let mut store = store();
    let prepared = prepare(&request(r#"{"model": "m", "input": "hi"}"#), &mut store, 0, IGNORE).unwrap();
    let persist = stream_persist(&prepared, "resp_9");
    let mut stream = ChatStream::new(prepared.tool_context, Some("resp_9"), Some(&prepared.echo));
    stream.receive(b"data: {\"choices\":[{\"delta\":{\"content\":\"yo\"},\"finish_reason\":\"stop\"}]}\n\n");
    assert!(stream.kept_message().is_none());
    stream.finish();
    persist.save(&mut store, 5, stream.kept_message().unwrap());
    let record = store.get("resp_9", 6).unwrap();
    assert_eq!(record.messages.len(), 2);
    assert_eq!(record.messages[1].get_str("content"), Some("yo"));
    assert_eq!(record.model, "m");
}

#[test]
fn ties_in_age_go_by_id() {
    let mut store = SessionStore::new(DEFAULT_TTL, 2);
    let prepared =
        prepare(&request(r#"{"model": "m", "input": "hi"}"#), &mut store, 0, IGNORE).unwrap();
    let answer = Json::parse(r#"{"choices": [{"message": {"content": "x"}}]}"#).unwrap();
    for id in ["b", "a", "c"] {
        complete(&prepared, &answer, id, &mut store, 7);
    }
    assert!(store.get("a", 7).is_none());
    assert!(store.get("b", 7).is_some());
    assert!(store.get("c", 7).is_some());
}

#[test]
fn left_out_reasoning_comes_back() {
    let message = Json::parse(
        r#"{"role": "assistant", "reasoning_content": "why", "tool_calls": [{"id": "c"}]}"#,
    )
    .unwrap();
    let cache = extract_reasoning_cache(&vec![message.clone()]);
    let bare =
        Json::parse(r#"{"role": "assistant", "tool_calls": [{"call_id": "c"}]}"#).unwrap();
    let restored = apply_reasoning_cache(vec![bare], &cache);
    assert_eq!(restored[0].get_str("reasoning_content"), Some("why"));
    let again = apply_reasoning_cache(vec![message.clone()], &cache);
    assert_eq!(again[0].render(), message.render());
    let texts = [
        r#"{"role": "assistant", "reasoning_content": "one", "tool_calls": [{}, {"id": "a"}]}"#,
        r#"{"role": "assistant", "reasoning_content": "two", "tool_calls": [{"id": "b"}]}"#,
        r#"{"role": "user", "content": "hi"}"#,
    ];
    let turn: Vec<Json> = texts.iter().map(|t| Json::parse(t).unwrap()).collect();
    let bare: Vec<Json> = turn
        .iter()
        .map(|m| {
            let mut o = m.as_object().unwrap().clone();
            o.remove("reasoning_content");
            Json::Object(o)
        })
        .collect();
    let restored = apply_reasoning_cache(bare, &extract_reasoning_cache(&turn));
    for (a, b) in restored.iter().zip(&turn) {
        assert_eq!(a.render(), b.render());
    }
}

#[test]
fn retries_come_to_an_end() {
    let all = "top_p include_usage stream_options parallel_tool_calls tool_choice thinking mode \
               reasoning_effort THINKING";
    let mut state = initial_state(object(
        r#"{"model": "gpt", "top_p": 2, "stream_options": {"include_usage": true},
            "parallel_tool_calls": true, "tool_choice": {"type": "function"}}"#,
    ));
    let mut labels = Vec::new();
    while let Some(label) = next_retry(&mut state, all, 400) {
        assert!(!labels.contains(&label), "{label} came twice");
        labels.push(label);
        state.body.insert("thinking", Json::Bool(true));
    }
    assert_eq!(
        labels,
        [
            "top_p_out_of_range",
            "include_usage_rejected",
            "stream_options_rejected",
            "parallel_tool_calls_rejected",
            "explicit_tool_choice_disable_reasoning",
            "unsupported_reasoning_effort_to_provider_default",
            "unsupported_thinking_strip_raw_thinking",
        ]
    );
    assert!(labels.len() <= MAX_COMPAT_HOPS);
}

#[test]
fn deliveries_come_to_an_end() {
    let mut delivery = Delivery::new(object(r#"{"model": "m", "top_p": 2}"#), 2);
    assert_eq!(delivery.after_rejection("bad top_p", 400), NextStep::SendChanged);
    assert_eq!(delivery.body().get("top_p").unwrap().render(), "0.999");
    assert_eq!(delivery.after_rejection("bad top_p", 400), NextStep::GiveUp);
    assert_eq!(delivery.after_rejection("busy", 429), NextStep::SendAgain);
    assert_eq!(delivery.after_fault(), NextStep::SendAgain);
    assert_eq!(delivery.after_rejection("busy", 503), NextStep::GiveUp);
    assert_eq!(delivery.after_fault(), NextStep::GiveUp);
}

#[test]
fn upstream_errors_are_passed_on() {
    let err = upstream_failure(429, r#"{"error": {"message": "slow down"}}"#);
    assert_eq!((err.status(), err.code(), err.message()), (429, "upstream_request_failed", "slow down"));
    assert_eq!(
        err.to_text(),
        r#"{"error":{"code":"upstream_request_failed","detail":{"error":{"message":"slow down"}},"message":"slow down","type":"upstream_error"}}"#
    );
    let err = upstream_failure(42, "oops");
    assert_eq!((err.status(), err.message()), (502, "Upstream returned status 42"));
}

#[test]
fn relayed_bodies_name_a_model() {
    assert_eq!(validate_relay_body("{\"messages\": []}").unwrap_err().code(), "missing_model");
    assert_eq!(validate_relay_body("[]").unwrap_err().code(), "invalid_json");
    assert_eq!(validate_relay_body("{").unwrap_err().code(), "invalid_json");
    let body = validate_relay_body(r#"{"model": "m", "x": 1}"#).unwrap();
    assert_eq!(Json::Object(body).render(), r#"{"model":"m","x":1}"#);
    let streamed = object(r#"{"model": "m", "stream": true, "stream_options": {"include_usage": true}}"#);
    assert_eq!(
        Json::Object(unstreamed(streamed)).render(),
        r#"{"model":"m","stream":false}"#
    );
}

#[test]
fn relayed_bodies_are_not_changed() {
    let mut relay = Relay::new(object(r#"{"model": "m", "top_p": 2}"#), 1);
    assert_eq!(relay.after_answer(400), NextStep::GiveUp);
    assert_eq!(relay.after_answer(200), NextStep::GiveUp);
    assert_eq!(relay.after_answer(429), NextStep::SendAgain);
    assert_eq!(relay.after_fault(), NextStep::GiveUp);
    assert_eq!(relay.body().get("top_p").unwrap().render(), "2");
}

#[test]
fn catalogues_become_lists() {
    let list = |text: &str| model_list(&Json::parse(text).unwrap()).render();
    assert_eq!(list(r#"{"data": [{"id": "m"}]}"#), r#"{"data":[{"id":"m"}],"object":"list"}"#);
    assert_eq!(list("{}"), r#"{"data":[],"object":"list"}"#);
}

#[test]
fn keys_are_asked_for_where_they_are_set() {
    let keys = vec!["k1".to_owned(), "k2".to_owned()];
    assert!(authorize(&Vec::new(), "/v1/responses", None).is_ok());
    assert!(authorize(&keys, "/health", None).is_ok());
    assert!(authorize(&keys, "/metrics", None).is_ok());
    assert!(authorize(&keys, "/v1/responses", Some("Bearer k2")).is_ok());
    for header in [None, Some("Bearer k3"), Some("k1"), Some("bearer k1")] {
        let err = authorize(&keys, "/v1/models", header).unwrap_err();
        assert_eq!((err.status(), err.code()), (401, "invalid_api_key"));
    }
}

#[test]
fn sizes_and_turns_are_decided_upfront() {
    assert!(declares_too_much(Some("11"), 10));
    assert!(!declares_too_much(Some("10"), 10));
    assert!(!declares_too_much(Some(" 11"), 10));
    assert!(!declares_too_much(None, 10));
    assert!(is_concurrency_limited("/v1/responses/compact"));
    assert!(!is_concurrency_limited("/v1/models"));
    assert_eq!(resolve_request_id(Some(" id ")), "id");
    assert_eq!(resolve_request_id(None).len(), 32);
    assert_eq!(stream_label(true), "stream");
    assert_eq!(stream_label(false), "body");
}

#[test]
fn every_error_has_its_answer() {
    let answer = |err: BridgeError| {
        let body = err.envelope().to_serde();
        (
            err.status(),
            body["error"]["type"].as_str().unwrap().to_owned(),
            body["error"]["code"].as_str().unwrap().to_owned(),
            body["error"]["message"].as_str().unwrap().to_owned(),
        )
    };
    let told = |status: u16, kind: &str, code: &str, message: &str| {
        (status, kind.to_owned(), code.to_owned(), message.to_owned())
    };
    assert_eq!(
        answer(BridgeError::request_body_too_large(1024)),
        told(
            413,
            "invalid_request_error",
            "request_too_large",
            "Request body too large: exceeds max 1024 bytes"
        )
    );
    assert_eq!(
        answer(BridgeError::overloaded("10")),
        told(
            503,
            "overloaded_error",
            "bridge_overloaded",
            "Bridge is overloaded: no capacity became free within 10 seconds"
        )
    );
    assert_eq!(
        answer(BridgeError::Stream { message: "cut".to_owned(), code: "stream_cut" }),
        told(500, "stream_error", "stream_cut", "cut")
    );
}

#[test]
fn odd_bodies_are_converted_too() {
    let ctx = BridgeToolContext::new();
    for text in [
        "null",
        "7",
        "[]",
        "\"x\"",
        r#"{"choices": 5}"#,
        r#"{"choices": [null]}"#,
        r#"{"choices": [{"message": []}]}"#,
        r#"{"choices": [{"message": {"content": {"a": 1}, "tool_calls": [5, {}, {"function": 3}]}}]}"#,
    ] {
        let body = Json::parse(text).unwrap();
        let out = chat_to_responses(&body, "fallback", None, "resp_1", &ctx).to_serde();
        assert_eq!(out["object"], "response", "{text}");
        assert!(out["output"].is_array() && out["status"].is_string(), "{text}");
    }
    for text in [
        "{}",
        r#"{"input": 5}"#,
        r#"{"input": [null, 1, [], {"type": 7}, {"type": "message", "role": 3}]}"#,
        r#"{"instructions": {"a": 1}, "tools": "x", "tool_choice": 5, "reasoning": []}"#,
    ] {
        let payload = request(text);
        let (chat, _) = responses_to_chat_with_session(&payload, "m", None, &ctx);
        assert!(chat.body.get("messages").unwrap().is_array(), "{text}");
    }
}

#[test]
fn losses_are_reported() {
    let payload = request(r#"{"input": [7, {"type": "function_call_output", "call_id": "c", "output": "o"}]}"#);
    let (_, losses) = responses_to_chat(&payload, "m", IGNORE);
    let report = drain_transform_loss(&losses).unwrap();
    assert_eq!(report.labels.len(), 2);
    assert_eq!(report.labels[1].1, "function_call_output");
    assert!(report.summary.starts_with("responses_to_chat transform loss: 2 events ["));
    let (_, none) = responses_to_chat(&request(r#"{"input": "hi"}"#), "m", IGNORE);
    assert!(drain_transform_loss(&none).is_none());
}

#[test]
fn hosted_tools_go_by_the_policy() {
    let tools = |policy| {
        let ctx = build_tool_context_from_request(
            &request(r#"{"tools": [{"type": "web_search"}]}"#),
            policy,
        );
        let list: Vec<Value> = ctx.chat_tools().iter().map(Json::to_serde).collect();
        list
    };
    assert!(tools(UnsupportedToolPolicy::Ignore).is_empty());
    assert!(tools(UnsupportedToolPolicy::Reject).is_empty());
    assert_eq!(tools(UnsupportedToolPolicy::Passthrough).len(), 1);
}
