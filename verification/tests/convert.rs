use codex_chat_bridge::config::UnsupportedToolPolicy;
use codex_chat_bridge::context::{build_tool_context_from_request, iter_request_input_items, BridgeToolContext, TOOL_SEARCH_PROXY_NAME};
use codex_chat_bridge::convert::responses_to_chat::append_input_items;
use codex_chat_bridge::convert::semantics::response_status_from_finish_reason;
use codex_chat_bridge::convert::{chat_to_responses, message_normalization, responses_to_chat, semantics};
use codex_chat_bridge::id_gen::synthetic_tool_call_ids;
use codex_chat_bridge::json::{Json, Object};
use codex_chat_bridge::transform_loss::{TransformLoss, TransformLossCollector};
use codex_chat_bridge::types::ResponsesRequest;
use serde_json::Value;

/// The document that a text denotes.
fn doc(text: &str) -> Value {
    serde_json::from_str(text).unwrap()
}

/// A value as a document.
fn as_doc<T: Into<Value>>(value: T) -> Value {
    value.into()
}

/// An object with the given members.
fn members(entries: Vec<(&str, Value)>) -> Value {
    Value::Object(entries.into_iter().map(|(k, v)| (k.to_owned(), v)).collect())
}

/// A document as the library holds it.
fn lib(value: &Value) -> Json {
    Json::from_serde(value.clone())
}

/// Documents as the library holds them.
fn lib_list(values: &[Value]) -> Vec<Json> {
    values.iter().map(lib).collect()
}

/// Documents of the library as plain values.
fn plain(values: &Vec<Json>) -> Vec<Value> {
    values.iter().map(Json::to_serde).collect()
}

/// An object as the library holds it.
fn lib_object(map: &serde_json::Map<String, Value>) -> Object {
    match Json::from_serde(Value::Object(map.clone())) {
        Json::Object(o) => o,
        _ => unreachable!(),
    }
}

/// The request that a body says.
fn request(body: Value) -> ResponsesRequest {
    ResponsesRequest::from_object(&lib_object(body.as_object().unwrap())).unwrap()
}

/// The `tool_choice` of a request for Chat.
fn responses_tool_choice_to_chat(choice: &Value, ctx: &BridgeToolContext) -> Value {
    responses_to_chat::responses_tool_choice_to_chat(&lib(choice), ctx).to_serde()
}

/// The usage of a response.
fn map_chat_usage(usage: Option<&Value>) -> Value {
    semantics::map_chat_usage(usage.map(lib).as_ref()).to_serde()
}

/// Why a turn is incomplete.
fn incomplete_reason_from_finish_reason(reason: Option<&str>) -> Option<Value> {
    semantics::incomplete_reason_from_finish_reason(reason).map(|r| r.to_serde())
}

fn extract_reasoning_text(message: &Value) -> String {
    chat_to_responses::extract_reasoning_text(&lib(message))
}

fn message_content_parts(message: &Value) -> Vec<Value> {
    plain(&chat_to_responses::message_content_parts(&lib(message)))
}

fn output_text_from_parts(parts: &[Value]) -> String {
    chat_to_responses::output_text_from_parts(&lib_list(parts))
}

fn chat_tool_calls_to_response_items(
    message: &Value,
    reasoning: &str,
    ctx: &BridgeToolContext,
) -> Vec<Value> {
    let calls = message["tool_calls"].as_array().map_or(0, Vec::len);
    let fresh = synthetic_tool_call_ids(calls);
    plain(&chat_to_responses::chat_tool_calls_to_response_items(
        &lib(message),
        reasoning,
        ctx,
        &fresh,
    ))
}

fn tool_call_to_response_item(
    call_id: &str,
    name: &str,
    arguments: Option<&Value>,
    reasoning: &str,
    ctx: &BridgeToolContext,
) -> Value {
    chat_to_responses::tool_call_to_response_item(
        call_id,
        name,
        arguments.map(lib).as_ref(),
        reasoning,
        ctx,
    )
    .to_serde()
}

fn instruction_text(value: &Value) -> String {
    message_normalization::instruction_text(&lib(value))
}

fn flatten_text_content(content: &Value) -> String {
    message_normalization::flatten_text_content(&lib(content))
}

fn reasoning_item_text(item: &serde_json::Map<String, Value>) -> String {
    message_normalization::reasoning_item_text(&lib_object(item))
}

fn chat_message_content_from_response_content(content: Option<&Value>) -> Value {
    message_normalization::chat_message_content_from_response_content(content.map(lib).as_ref())
        .to_serde()
}

fn normalize_tool_output_content(output: Option<&Value>) -> String {
    message_normalization::normalize_tool_output_content(output.map(lib).as_ref())
}

fn sanitize_messages(messages: Vec<Value>) -> Vec<Value> {
    plain(&message_normalization::sanitize_messages(lib_list(&messages)))
}

fn collapse_system_messages_to_head(messages: Vec<Value>) -> Vec<Value> {
    plain(&message_normalization::collapse_system_messages_to_head(lib_list(&messages)))
}

fn append_reasoning_to_last_assistant(messages: &mut Vec<Value>, text: &str) -> bool {
    let mut list = lib_list(messages);
    let found = message_normalization::append_reasoning_to_last_assistant(&mut list, text);
    *messages = plain(&list);
    found
}

/// The items of the input of a request.
fn input_items(payload: &ResponsesRequest) -> Vec<Value> {
    plain(&iter_request_input_items(payload.input.as_ref()))
}

/// The Chat request of a request.
fn responses_to_chat(payload: &ResponsesRequest, model: &str) -> Converted {
    let (chat, _) =
        responses_to_chat::responses_to_chat(payload, model, UnsupportedToolPolicy::Ignore);
    Converted {
        body: Json::Object(chat.body).to_serde(),
    }
}

/// The body of a Chat request as a plain value.
struct Converted {
    body: Value,
}

/// Build a `ResponsesRequest` carrying only an `input` field, for exercising
/// the request-side input helpers without hand-constructing every field.
fn req_with_input(input: Value) -> ResponsesRequest {
    request(members(vec![("input", input)]))
}

#[test]
fn convert_tool_choice_string_modes_pass_through() {
    let ctx = BridgeToolContext::new();
    for mode in ["auto", "none", "required"] {
        assert_eq!(
            responses_tool_choice_to_chat(&as_doc(mode), &ctx),
            as_doc(mode)
        );
    }
}

#[test]
fn convert_tool_choice_explicit_object_is_rewritten_nested() {
    let ctx = BridgeToolContext::new();
    let out = responses_tool_choice_to_chat(&doc(r#"{"type": "function", "name": "f"}"#), &ctx);
    assert_eq!(
        out,
        doc(r#"{"type": "function", "function": {"name": "f"}}"#)
    );
}

#[test]
fn convert_tool_choice_tool_search_maps_to_proxy() {
    let ctx = BridgeToolContext::new();
    let out = responses_tool_choice_to_chat(&doc(r#"{"type": "tool_search"}"#), &ctx);
    assert_eq!(
        out,
        members(vec![("type", doc(r#""function""#)), ("function", members(vec![("name", as_doc(TOOL_SEARCH_PROXY_NAME))]))]),
    );
}

// Response side: status / incomplete-details / usage mapping

#[test]
fn convert_status_from_finish_reason_matches_python_table() {
    assert_eq!(
        response_status_from_finish_reason(Some("tool_calls")).as_str(),
        "in_progress"
    );
    assert_eq!(
        response_status_from_finish_reason(Some("length")).as_str(),
        "incomplete"
    );
    assert_eq!(
        response_status_from_finish_reason(Some("content_filter")).as_str(),
        "incomplete"
    );
    assert_eq!(
        response_status_from_finish_reason(Some("stop")).as_str(),
        "completed"
    );
    assert_eq!(
        response_status_from_finish_reason(None).as_str(),
        "completed"
    );
}

#[test]
fn convert_incomplete_reason_only_for_length_and_filter() {
    assert_eq!(
        incomplete_reason_from_finish_reason(Some("length")),
        Some(doc(r#"{"reason": "max_output_tokens"}"#))
    );
    assert_eq!(
        incomplete_reason_from_finish_reason(Some("content_filter")),
        Some(doc(r#"{"reason": "content_filter"}"#))
    );
    assert_eq!(incomplete_reason_from_finish_reason(Some("stop")), None);
    assert_eq!(incomplete_reason_from_finish_reason(None), None);
}

#[test]
fn convert_usage_missing_yields_zeroed_object() {
    assert_eq!(
        map_chat_usage(None),
        doc(r#"{"input_tokens": 0, "output_tokens": 0, "total_tokens": 0}"#)
    );
}

#[test]
fn convert_usage_takes_max_of_old_and_new_token_fields() {
    let usage = doc(r#"{"prompt_tokens": 10, "completion_tokens": 20, "input_tokens": 0, "output_tokens": 0}"#);
    let out = map_chat_usage(Some(&usage));
    assert_eq!(out["input_tokens"], doc(r#"10"#));
    assert_eq!(out["output_tokens"], doc(r#"20"#));
    assert_eq!(out["total_tokens"], doc(r#"30"#));
}

#[test]
fn convert_usage_prefers_explicit_total_when_larger() {
    let usage = doc(r#"{"prompt_tokens": 5, "completion_tokens": 5, "total_tokens": 99}"#);
    let out = map_chat_usage(Some(&usage));
    assert_eq!(out["total_tokens"], doc(r#"99"#));
}

#[test]
fn convert_usage_carries_token_details_from_either_naming() {
    let usage = doc(r#"{"prompt_tokens": 1, "completion_tokens": 1, "prompt_tokens_details": {"cached_tokens": 3}, "completion_tokens_details": {"reasoning_tokens": 7}}"#);
    let out = map_chat_usage(Some(&usage));
    assert_eq!(out["input_tokens_details"], doc(r#"{"cached_tokens": 3}"#));
    assert_eq!(
        out["output_tokens_details"],
        doc(r#"{"reasoning_tokens": 7}"#)
    );
}

// Response side: reasoning + content extraction

#[test]
fn convert_reasoning_prefers_reasoning_content_field() {
    let msg = doc(r#"{"reasoning_content": " thinking ", "reasoning": "other"}"#);
    assert_eq!(extract_reasoning_text(&msg), "thinking");
}

#[test]
fn convert_reasoning_falls_back_to_reasoning_field() {
    let msg = doc(r#"{"reasoning": " deduced "}"#);
    assert_eq!(extract_reasoning_text(&msg), "deduced");
}

#[test]
fn convert_reasoning_extracts_inline_think_block() {
    let msg = doc(r#"{"content": "<think>step one</think>answer"}"#);
    assert_eq!(extract_reasoning_text(&msg), "step one");
}

#[test]
fn convert_reasoning_absent_yields_empty() {
    let msg = doc(r#"{"content": "plain answer"}"#);
    assert_eq!(extract_reasoning_text(&msg), "");
}

#[test]
fn convert_content_string_becomes_single_output_text_part() {
    let msg = doc(r#"{"content": "hello"}"#);
    let parts = message_content_parts(&msg);
    assert_eq!(parts.len(), 1);
    assert_eq!(parts[0]["type"], doc(r#""output_text""#));
    assert_eq!(parts[0]["text"], doc(r#""hello""#));
    assert_eq!(parts[0]["annotations"], doc(r#"[]"#));
}

#[test]
fn convert_content_string_strips_inline_think_prefix() {
    let msg = doc(r#"{"content": "<think>reason</think>final"}"#);
    let parts = message_content_parts(&msg);
    assert_eq!(parts.len(), 1);
    assert_eq!(parts[0]["text"], doc(r#""final""#));
}

#[test]
fn convert_content_array_merges_message_and_part_annotations() {
    let msg = doc(r#"{"annotations": [{"type": "url_citation", "url": "a"}], "content": [{"type": "output_text", "text": "hi", "annotations": [{"type": "url_citation", "url": "b"}]}]}"#);
    let parts = message_content_parts(&msg);
    assert_eq!(parts.len(), 1);
    let ann = parts[0]["annotations"].as_array().unwrap();
    assert_eq!(ann.len(), 2);
}

#[test]
fn convert_content_array_refusal_part_is_preserved() {
    let msg = doc(r#"{"content": [{"type": "refusal", "refusal": "no"}]}"#);
    let parts = message_content_parts(&msg);
    assert_eq!(parts.len(), 1);
    assert_eq!(parts[0]["type"], doc(r#""refusal""#));
    assert_eq!(parts[0]["refusal"], doc(r#""no""#));
}

#[test]
fn convert_top_level_refusal_field_appends_refusal_part() {
    let msg = doc(r#"{"content": "text", "refusal": "denied"}"#);
    let parts = message_content_parts(&msg);
    // output_text + refusal
    assert_eq!(parts.len(), 2);
    assert_eq!(parts[1]["type"], doc(r#""refusal""#));
    assert_eq!(parts[1]["refusal"], doc(r#""denied""#));
}

#[test]
fn convert_empty_content_string_yields_no_parts() {
    let msg = doc(r#"{"content": ""}"#);
    assert!(message_content_parts(&msg).is_empty());
}

#[test]
fn convert_output_text_joins_only_output_text_parts_with_newline() {
    let parts = vec![
        doc(r#"{"type": "output_text", "text": "a"}"#),
        doc(r#"{"type": "refusal", "refusal": "x"}"#),
        doc(r#"{"type": "output_text", "text": "b"}"#),
    ];
    assert_eq!(output_text_from_parts(&parts), "a\nb");
}

// Response side: tool-call items

#[test]
fn convert_tool_calls_become_function_call_items() {
    let msg = doc(r#"{"tool_calls": [{"id": "call_1", "function": {"name": "get_weather", "arguments": "{\"city\":\"Paris\"}"}}]}"#);
    let ctx = BridgeToolContext::new();
    let items = chat_tool_calls_to_response_items(&msg, "", &ctx);
    assert_eq!(items.len(), 1);
    assert_eq!(items[0]["type"], doc(r#""function_call""#));
    assert_eq!(items[0]["call_id"], doc(r#""call_1""#));
    assert_eq!(items[0]["name"], doc(r#""get_weather""#));
    assert_eq!(items[0]["status"], doc(r#""completed""#));
    // arguments canonicalized (sorted keys, single-key here).
    assert_eq!(items[0]["arguments"], doc(r#""{\"city\":\"Paris\"}""#));
}

#[test]
fn convert_tool_call_item_carries_reasoning_when_present() {
    let ctx = BridgeToolContext::new();
    let item = tool_call_to_response_item("c1", "f", Some(&doc(r#""{}""#)), "why", &ctx);
    assert_eq!(item["reasoning_content"], doc(r#""why""#));
}

#[test]
fn convert_tool_call_item_omits_reasoning_when_empty() {
    let ctx = BridgeToolContext::new();
    let item = tool_call_to_response_item("c1", "f", Some(&doc(r#""{}""#)), "", &ctx);
    assert!(item.get("reasoning_content").is_none());
}

#[test]
fn convert_tool_call_missing_name_defaults_to_unknown_tool() {
    let msg = doc(r#"{"tool_calls": [{"id": "c", "function": {}}]}"#);
    let ctx = BridgeToolContext::new();
    let items = chat_tool_calls_to_response_items(&msg, "", &ctx);
    assert_eq!(items[0]["name"], doc(r#""unknown_tool""#));
}

// Content / text primitives

#[test]
fn convert_instruction_text_from_string_and_array() {
    assert_eq!(instruction_text(&doc(r#""go""#)), "go");
    let arr = doc(r#"["one", {"text": "two"}, {"no_text": true}]"#);
    assert_eq!(instruction_text(&arr), "one\n\ntwo");
    assert_eq!(instruction_text(&Value::Null), "");
}

#[test]
fn convert_flatten_text_content_variants() {
    assert_eq!(flatten_text_content(&doc(r#""s""#)), "s");
    assert_eq!(flatten_text_content(&Value::Null), "");
    let arr = doc(r#"["bare", {"type": "input_text", "text": "a"}, {"type": "output_text", "text": "b"}, {"type": "image", "text": "ignored"}]"#);
    assert_eq!(flatten_text_content(&arr), "bare\na\nb");
}

#[test]
fn convert_reasoning_item_text_prefers_summary_list() {
    let item = doc(r#"{"summary": [{"text": "p1"}, {"text": "p2"}], "text": "ignored"}"#);
    assert_eq!(reasoning_item_text(item.as_object().unwrap()), "p1\n\np2");
}

#[test]
fn convert_reasoning_item_text_falls_back_through_fields() {
    let item = doc(r#"{"reasoning_content": "rc"}"#);
    assert_eq!(reasoning_item_text(item.as_object().unwrap()), "rc");
    let enc = doc(r#"{"encrypted_content": "ec"}"#);
    assert_eq!(reasoning_item_text(enc.as_object().unwrap()), "ec");
    assert_eq!(reasoning_item_text(doc(r#"{}"#).as_object().unwrap()), "");
}

#[test]
fn convert_iter_request_input_items_string_wraps_as_input_text() {
    let payload = req_with_input(doc(r#""hi""#));
    let items = input_items(&payload);
    assert_eq!(items, vec![doc(r#"{"type": "input_text", "text": "hi"}"#)]);
}

#[test]
fn convert_iter_request_input_items_array_lifts_bare_strings() {
    let payload = req_with_input(doc(r#"["a", {"type": "message", "role": "user"}]"#));
    let items = input_items(&payload);
    assert_eq!(items[0], doc(r#"{"type": "input_text", "text": "a"}"#));
    assert_eq!(items[1], doc(r#"{"type": "message", "role": "user"}"#));
}

#[test]
fn convert_iter_request_input_items_none_is_empty() {
    let payload = req_with_input(Value::Null);
    assert!(input_items(&payload).is_empty());
}

#[test]
fn convert_chat_content_all_text_collapses_to_string() {
    let content = doc(r#"[{"type": "input_text", "text": "a"}, {"type": "text", "text": "b"}]"#);
    assert_eq!(
        chat_message_content_from_response_content(Some(&content)),
        doc(r#""a\nb""#)
    );
}

#[test]
fn convert_chat_content_refusal_part_is_prefixed() {
    let content = doc(r#"[{"type": "refusal", "refusal": "no"}]"#);
    assert_eq!(
        chat_message_content_from_response_content(Some(&content)),
        doc(r#""[refusal]: no""#)
    );
}

#[test]
fn convert_chat_content_empty_array_becomes_empty_string() {
    let content = doc(r#"[]"#);
    assert_eq!(
        chat_message_content_from_response_content(Some(&content)),
        doc(r#""""#)
    );
}

#[test]
fn convert_tool_output_flattens_string_and_content_array() {
    assert_eq!(normalize_tool_output_content(Some(&doc(r#""raw""#))), "raw");
    let obj = doc(r#"{"content": [{"type": "output_text", "text": "flat"}]}"#);
    assert_eq!(normalize_tool_output_content(Some(&obj)), "flat");
    assert_eq!(normalize_tool_output_content(None), "");
}

// Message normalization

#[test]
fn convert_sanitize_drops_empty_assistant_to_separator() {
    let msgs = vec![doc(r#"{"role": "assistant", "reasoning_content": "rc"}"#)];
    let out = sanitize_messages(msgs);
    assert_eq!(out.len(), 1);
    assert_eq!(out[0]["role"], doc(r#""assistant""#));
    assert_eq!(out[0]["content"], doc(r#""""#));
    assert_eq!(out[0]["reasoning_content"], doc(r#""rc""#));
}

#[test]
fn convert_sanitize_keeps_user_and_system_even_when_empty() {
    let msgs = vec![
        doc(r#"{"role": "user", "content": ""}"#),
        doc(r#"{"role": "system", "content": ""}"#),
    ];
    let out = sanitize_messages(msgs);
    assert_eq!(out.len(), 2);
}

#[test]
fn convert_sanitize_keeps_assistant_with_tool_calls() {
    let msgs = vec![doc(r#"{"role": "assistant", "tool_calls": [{"id": "c", "function": {"name": "f", "arguments": "{}"}}]}"#)];
    let out = sanitize_messages(msgs);
    assert_eq!(out.len(), 1);
    assert!(out[0].get("tool_calls").is_some());
}

#[test]
fn convert_sanitize_merges_adjacent_system_messages() {
    let msgs = vec![
        doc(r#"{"role": "system", "content": "a"}"#),
        doc(r#"{"role": "system", "content": "b"}"#),
    ];
    let out = sanitize_messages(msgs);
    assert_eq!(out.len(), 1);
    assert_eq!(out[0]["content"], doc(r#""a\n\nb""#));
}

#[test]
fn convert_sanitize_cleans_control_chars_in_content() {
    let msgs = vec![doc(r#"{"role": "user", "content": "hi\u0000there"}"#)];
    let out = sanitize_messages(msgs);
    assert_eq!(out[0]["content"], doc(r#""hithere""#));
}

#[test]
fn convert_sanitize_cleans_tool_call_function_fields() {
    let msgs = vec![doc(r#"{"role": "assistant", "tool_calls": [{"id": "c", "function": {"name": "f\u0000n", "arguments": "{\u0000}"}}]}"#)];
    let out = sanitize_messages(msgs);
    let f = &out[0]["tool_calls"][0]["function"];
    assert_eq!(f["name"], doc(r#""fn""#));
    assert_eq!(f["arguments"], doc(r#""{}""#));
}

#[test]
fn convert_collapse_moves_all_system_text_to_head() {
    let msgs = vec![
        doc(r#"{"role": "user", "content": "u1"}"#),
        doc(r#"{"role": "system", "content": "s1"}"#),
        doc(r#"{"role": "assistant", "content": "a1"}"#),
        doc(r#"{"role": "system", "content": "s2"}"#),
    ];
    let out = collapse_system_messages_to_head(msgs);
    assert_eq!(out[0]["role"], doc(r#""system""#));
    assert_eq!(out[0]["content"], doc(r#""s1\n\ns2""#));
    assert_eq!(out[1]["role"], doc(r#""user""#));
    assert_eq!(out.len(), 3);
}

#[test]
fn convert_collapse_no_system_leaves_messages_unchanged() {
    let msgs = vec![doc(r#"{"role": "user", "content": "u"}"#)];
    let out = collapse_system_messages_to_head(msgs.clone());
    assert_eq!(out, msgs);
}

#[test]
fn convert_append_reasoning_backfills_last_assistant() {
    let mut msgs = vec![
        doc(r#"{"role": "user", "content": "u"}"#),
        doc(r#"{"role": "assistant", "content": "a"}"#),
    ];
    assert!(append_reasoning_to_last_assistant(&mut msgs, "why"));
    assert_eq!(msgs[1]["reasoning_content"], doc(r#""why""#));
}

#[test]
fn convert_append_reasoning_concatenates_existing() {
    let mut msgs = vec![doc(r#"{"role": "assistant", "content": "a", "reasoning_content": "prev"}"#)];
    append_reasoning_to_last_assistant(&mut msgs, "next");
    assert_eq!(msgs[0]["reasoning_content"], doc(r#""prev\n\nnext""#));
}

#[test]
fn convert_append_reasoning_stops_at_non_assistant_tail() {
    let mut msgs = vec![doc(r#"{"role": "user", "content": "u"}"#)];
    assert!(!append_reasoning_to_last_assistant(&mut msgs, "why"));
}

// Input-item assembly (append_input_items + helpers)

/// Run `append_input_items` for the given `input` and return the messages.
fn build_messages(input: Value) -> Vec<Value> {
    build_messages_with_loss(input).0
}

/// Run `append_input_items` and return both the messages and the collected
/// transform-loss events, for tests asserting on degradation.
fn build_messages_with_loss(input: Value) -> (Vec<Value>, TransformLossCollector) {
    let payload = req_with_input(input);
    let tool_context = build_tool_context_from_request(&payload, UnsupportedToolPolicy::Ignore);
    let items = iter_request_input_items(payload.input.as_ref());
    let fresh = synthetic_tool_call_ids(items.len());
    let (messages, loss) = append_input_items(&items, Vec::new(), &tool_context, &fresh);
    (plain(&messages), loss)
}

#[test]
fn convert_text_item_becomes_user_message() {
    let msgs = build_messages(doc(r#"[{"type": "input_text", "text": "hello"}]"#));
    assert_eq!(msgs.len(), 1);
    assert_eq!(msgs[0]["role"], doc(r#""user""#));
    assert_eq!(msgs[0]["content"], doc(r#""hello""#));
}

#[test]
fn convert_function_call_item_becomes_assistant_tool_call() {
    let msgs = build_messages(doc(r#"[{"type": "function_call", "call_id": "c1", "name": "get_weather", "arguments": "{\"city\":\"Paris\"}"}]"#));
    assert_eq!(msgs.len(), 1);
    assert_eq!(msgs[0]["role"], doc(r#""assistant""#));
    let tc = &msgs[0]["tool_calls"][0];
    assert_eq!(tc["id"], doc(r#""c1""#));
    assert_eq!(tc["function"]["name"], doc(r#""get_weather""#));
    assert_eq!(tc["function"]["arguments"], doc(r#""{\"city\":\"Paris\"}""#));
}

#[test]
fn convert_matched_function_call_output_becomes_tool_message() {
    // A tool output whose call_id matches a preceding call becomes a proper
    // tool-role message.
    let msgs = build_messages(doc(r#"[{"type": "function_call", "call_id": "c1", "name": "f", "arguments": "{}"}, {"type": "function_call_output", "call_id": "c1", "output": "sunny"}]"#));
    assert_eq!(msgs.len(), 2);
    assert_eq!(msgs[1]["role"], doc(r#""tool""#));
    assert_eq!(msgs[1]["tool_call_id"], doc(r#""c1""#));
    assert_eq!(msgs[1]["content"], doc(r#""sunny""#));
}

#[test]
fn convert_orphan_function_call_output_downgrades_to_user() {
    // A tool output with no matching preceding call would be rejected by
    // Chat Completions as an orphan tool message, so it is downgraded to a
    // user message and recorded as transform loss.
    let (msgs, loss) = build_messages_with_loss(doc(r#"[{"type": "function_call_output", "call_id": "c1", "output": "sunny"}]"#));
    assert_eq!(msgs.len(), 1);
    assert_eq!(msgs[0]["role"], doc(r#""user""#));
    assert_eq!(
        msgs[0]["content"],
        doc(r#""Function call output (c1): sunny""#)
    );
    assert_eq!(loss.events().len(), 1);
    assert_eq!(
        loss.events()[0].kind,
        TransformLoss::DowngradedOrphanToolOutput
    );
}

#[test]
fn convert_call_then_output_pairs_across_flush() {
    let msgs = build_messages(doc(r#"[{"type": "function_call", "call_id": "c1", "name": "f", "arguments": "{}"}, {"type": "function_call_output", "call_id": "c1", "output": "done"}]"#));
    // The pending tool-call flushes to an assistant message before the tool
    // output message is appended.
    assert_eq!(msgs.len(), 2);
    assert_eq!(msgs[0]["role"], doc(r#""assistant""#));
    assert_eq!(msgs[0]["tool_calls"][0]["id"], doc(r#""c1""#));
    assert_eq!(msgs[1]["role"], doc(r#""tool""#));
    assert_eq!(msgs[1]["tool_call_id"], doc(r#""c1""#));
}

#[test]
fn convert_reasoning_before_tool_call_rides_on_assistant() {
    let msgs = build_messages(doc(r#"[{"type": "reasoning", "summary": [{"text": "because"}]}, {"type": "function_call", "call_id": "c1", "name": "f", "arguments": "{}"}]"#));
    assert_eq!(msgs.len(), 1);
    assert_eq!(msgs[0]["role"], doc(r#""assistant""#));
    assert_eq!(msgs[0]["reasoning_content"], doc(r#""because""#));
    assert_eq!(msgs[0]["tool_calls"][0]["id"], doc(r#""c1""#));
}

#[test]
fn convert_reasoning_only_flushes_to_assistant_separator() {
    let msgs = build_messages(doc(r#"[{"type": "reasoning", "text": "lonely"}]"#));
    assert_eq!(msgs.len(), 1);
    assert_eq!(msgs[0]["role"], doc(r#""assistant""#));
    assert_eq!(msgs[0]["content"], doc(r#""""#));
    assert_eq!(msgs[0]["reasoning_content"], doc(r#""lonely""#));
}

#[test]
fn convert_reasoning_backfills_preceding_assistant_message() {
    let msgs = build_messages(doc(r#"[{"type": "message", "role": "assistant", "content": "answer"}, {"type": "reasoning", "text": "afterthought"}]"#));
    assert_eq!(msgs.len(), 1);
    assert_eq!(msgs[0]["role"], doc(r#""assistant""#));
    assert_eq!(msgs[0]["reasoning_content"], doc(r#""afterthought""#));
}

#[test]
fn convert_custom_tool_call_uses_input_as_arguments() {
    let msgs = build_messages(doc(r#"[{"type": "custom_tool_call", "call_id": "c1", "name": "runner", "input": "raw payload"}]"#));
    assert_eq!(
        msgs[0]["tool_calls"][0]["function"]["name"],
        doc(r#""runner""#)
    );
    assert_eq!(
        msgs[0]["tool_calls"][0]["function"]["arguments"],
        doc(r#""raw payload""#)
    );
}

#[test]
fn convert_tool_search_call_maps_to_proxy_name() {
    let msgs = build_messages(doc(r#"[{"type": "tool_search_call", "call_id": "c1", "arguments": "{}"}]"#));
    assert_eq!(
        msgs[0]["tool_calls"][0]["function"]["name"],
        as_doc(TOOL_SEARCH_PROXY_NAME)
    );
}

#[test]
fn convert_generic_message_maps_developer_role_to_system() {
    let msgs = build_messages(doc(r#"[{"type": "message", "role": "developer", "content": "sys text"}]"#));
    assert_eq!(msgs[0]["role"], doc(r#""system""#));
    assert_eq!(msgs[0]["content"], doc(r#""sys text""#));
}

#[test]
fn convert_multiple_tool_calls_accumulate_into_one_assistant() {
    let msgs = build_messages(doc(r#"[{"type": "function_call", "call_id": "c1", "name": "f", "arguments": "{}"}, {"type": "function_call", "call_id": "c2", "name": "g", "arguments": "{}"}]"#));
    assert_eq!(msgs.len(), 1);
    let tcs = msgs[0]["tool_calls"].as_array().unwrap();
    assert_eq!(tcs.len(), 2);
    assert_eq!(tcs[0]["id"], doc(r#""c1""#));
    assert_eq!(tcs[1]["id"], doc(r#""c2""#));
}

// Top-level request assembly: responses_to_chat

/// Build a full `ResponsesRequest` from a raw JSON body.
fn req_from(body: Value) -> ResponsesRequest {
    request(body)
}

#[test]
fn convert_responses_to_chat_sets_model_messages_and_stream_flag() {
    let payload = req_from(doc(r#"{"model": "gpt-x", "input": [{"type": "input_text", "text": "hi"}]}"#));
    let chat = responses_to_chat(&payload, "gpt-x");
    assert_eq!(chat.body["model"], doc(r#""gpt-x""#));
    assert_eq!(chat.body["stream"], doc(r#"false"#));
    let msgs = chat.body["messages"].as_array().unwrap();
    assert_eq!(msgs.last().unwrap()["content"], doc(r#""hi""#));
}

#[test]
fn convert_responses_to_chat_prepends_instructions_as_system_head() {
    let payload = req_from(doc(r#"{"model": "m", "instructions": "be terse", "input": [{"type": "input_text", "text": "hi"}]}"#));
    let chat = responses_to_chat(&payload, "m");
    let msgs = chat.body["messages"].as_array().unwrap();
    assert_eq!(msgs[0]["role"], doc(r#""system""#));
    assert_eq!(msgs[0]["content"], doc(r#""be terse""#));
}

#[test]
fn convert_responses_to_chat_converts_tools_and_tool_choice() {
    let payload = req_from(doc(r#"{"model": "m", "input": "hi", "tools": [{"type": "function", "name": "f", "parameters": {"type": "object"}}], "tool_choice": {"type": "function", "name": "f"}}"#));
    let chat = responses_to_chat(&payload, "m");
    assert_eq!(chat.body["tools"][0]["function"]["name"], doc(r#""f""#));
    assert_eq!(
        chat.body["tool_choice"],
        doc(r#"{"type": "function", "function": {"name": "f"}}"#)
    );
}

#[test]
fn convert_responses_to_chat_maps_max_output_tokens_to_max_tokens() {
    let payload = req_from(doc(r#"{"model": "m", "input": "hi", "max_output_tokens": 128}"#));
    let chat = responses_to_chat(&payload, "m");
    assert_eq!(chat.body["max_tokens"], doc(r#"128"#));
    assert!(chat.body.get("max_completion_tokens").is_none());
}

#[test]
fn convert_responses_to_chat_uses_max_completion_tokens_for_o_series() {
    let payload = req_from(doc(r#"{"model": "o3-mini", "input": "hi", "max_output_tokens": 64}"#));
    let chat = responses_to_chat(&payload, "o3-mini");
    assert_eq!(chat.body["max_completion_tokens"], doc(r#"64"#));
    assert!(chat.body.get("max_tokens").is_none());
}

#[test]
fn convert_responses_to_chat_passes_sampling_params_through() {
    let payload = req_from(doc(r#"{"model": "m", "input": "hi", "temperature": 0.5, "top_p": 0.9}"#));
    let chat = responses_to_chat(&payload, "m");
    assert_eq!(chat.body["temperature"], doc(r#"0.5"#));
    assert_eq!(chat.body["top_p"], doc(r#"0.9"#));
}

#[test]
fn convert_responses_to_chat_passes_response_format_through() {
    let payload = req_from(doc(r#"{"model": "m", "input": "hi", "response_format": {"type": "json_object"}}"#));
    let chat = responses_to_chat(&payload, "m");
    assert_eq!(
        chat.body["response_format"],
        doc(r#"{"type": "json_object"}"#)
    );
}

#[test]
fn convert_responses_to_chat_passes_extra_passthrough_fields_through() {
    let payload = req_from(doc(r#"{"model": "m", "input": "hi", "seed": 42, "presence_penalty": 0.3}"#));
    let chat = responses_to_chat(&payload, "m");
    assert_eq!(chat.body["seed"], doc(r#"42"#));
    assert_eq!(chat.body["presence_penalty"], doc(r#"0.3"#));
}

#[test]
fn convert_responses_to_chat_stream_uses_named_stream_options() {
    let payload = req_from(doc(r#"{"model": "m", "input": "hi", "stream": true, "stream_options": {"include_usage": false}}"#));
    let chat = responses_to_chat(&payload, "m");
    assert_eq!(chat.body["stream"], doc(r#"true"#));
    assert_eq!(
        chat.body["stream_options"],
        doc(r#"{"include_usage": false}"#)
    );
}

#[test]
fn convert_responses_to_chat_stream_defaults_stream_options() {
    let payload = req_from(doc(r#"{"model": "m", "input": "hi", "stream": true}"#));
    let chat = responses_to_chat(&payload, "m");
    assert_eq!(
        chat.body["stream_options"],
        doc(r#"{"include_usage": true}"#)
    );
}

#[test]
fn convert_responses_to_chat_non_stream_omits_stream_options() {
    let payload = req_from(doc(r#"{"model": "m", "input": "hi"}"#));
    let chat = responses_to_chat(&payload, "m");
    assert!(chat.body.get("stream_options").is_none());
}

#[test]
fn convert_responses_to_chat_omits_tools_when_empty() {
    let payload = req_from(doc(r#"{"model": "m", "input": "hi", "tools": []}"#));
    let chat = responses_to_chat(&payload, "m");
    assert!(chat.body.get("tools").is_none());
    assert!(chat.body.get("tool_choice").is_none());
}
