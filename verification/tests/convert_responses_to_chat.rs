use codex_chat_bridge::config::UnsupportedToolPolicy;
use codex_chat_bridge::context::{build_tool_context_from_request, iter_request_input_items, BridgeToolContext, TOOL_SEARCH_PROXY_NAME};
use codex_chat_bridge::convert::responses_to_chat::append_input_items;
use codex_chat_bridge::convert::responses_to_chat;
use codex_chat_bridge::id_gen::synthetic_tool_call_ids;
use codex_chat_bridge::json::{Json, Object};
use codex_chat_bridge::transform_loss::{TransformLoss, TransformLossCollector};
use codex_chat_bridge::types::ResponsesRequest;
use serde_json::Value;

/// The document that a text denotes.
fn doc(text: &str) -> Value {
    serde_json::from_str(text).unwrap()
}

/// A value as a document.
fn as_doc<T: Into<Value>>(value: T) -> Value {
    value.into()
}

/// An object with the given members.
fn members(entries: Vec<(&str, Value)>) -> Value {
    Value::Object(entries.into_iter().map(|(k, v)| (k.to_owned(), v)).collect())
}

/// A document as the library holds it.
fn lib(value: &Value) -> Json {
    Json::from_serde(value.clone())
}

/// Documents of the library as plain values.
fn plain(values: &Vec<Json>) -> Vec<Value> {
    values.iter().map(Json::to_serde).collect()
}

/// An object as the library holds it.
fn lib_object(map: &serde_json::Map<String, Value>) -> Object {
    match Json::from_serde(Value::Object(map.clone())) {
        Json::Object(o) => o,
        _ => unreachable!(),
    }
}

/// The request that a body says.
fn request(body: Value) -> ResponsesRequest {
    ResponsesRequest::from_object(&lib_object(body.as_object().unwrap())).unwrap()
}

/// The `tool_choice` of a request for Chat.
fn responses_tool_choice_to_chat(choice: &Value, ctx: &BridgeToolContext) -> Value {
    responses_to_chat::responses_tool_choice_to_chat(&lib(choice), ctx).to_serde()
}

/// The items of the input of a request.
fn input_items(payload: &ResponsesRequest) -> Vec<Value> {
    plain(&iter_request_input_items(payload.input.as_ref()))
}

/// The Chat request of a request.
fn responses_to_chat(payload: &ResponsesRequest, model: &str) -> Converted {
    let (chat, _) =
        responses_to_chat::responses_to_chat(payload, model, UnsupportedToolPolicy::Ignore);
    Converted {
        body: Json::Object(chat.body).to_serde(),
    }
}

/// The body of a Chat request as a plain value.
struct Converted {
    body: Value,
}

/// Build a `ResponsesRequest` carrying only an `input` field, for exercising
/// the request-side input helpers without hand-constructing every field.
fn req_with_input(input: Value) -> ResponsesRequest {
    request(members(vec![("input", input)]))
}
#[test]
fn responses_to_chat_tool_choice_string_modes_pass_through() {
    let ctx = BridgeToolContext::new();
    for mode in ["auto", "none", "required"] {
        assert_eq!(
            responses_tool_choice_to_chat(&as_doc(mode), &ctx),
            as_doc(mode)
        );
    }
}
#[test]
fn responses_to_chat_tool_choice_explicit_object_is_rewritten_nested() {
    let ctx = BridgeToolContext::new();
    let out = responses_tool_choice_to_chat(&doc(r#"{"type": "function", "name": "f"}"#), &ctx);
    assert_eq!(
        out,
        doc(r#"{"type": "function", "function": {"name": "f"}}"#)
    );
}
#[test]
fn responses_to_chat_tool_choice_tool_search_maps_to_proxy() {
    let ctx = BridgeToolContext::new();
    let out = responses_tool_choice_to_chat(&doc(r#"{"type": "tool_search"}"#), &ctx);
    assert_eq!(
        out,
        members(vec![("type", doc(r#""function""#)), ("function", members(vec![("name", as_doc(TOOL_SEARCH_PROXY_NAME))]))]),
    );
}
#[test]
fn responses_to_chat_iter_request_input_items_string_wraps_as_input_text() {
    let payload = req_with_input(doc(r#""hi""#));
    let items = input_items(&payload);
    assert_eq!(items, vec![doc(r#"{"type": "input_text", "text": "hi"}"#)]);
}
#[test]
fn responses_to_chat_iter_request_input_items_array_lifts_bare_strings() {
    let payload = req_with_input(doc(r#"["a", {"type": "message", "role": "user"}]"#));
    let items = input_items(&payload);
    assert_eq!(items[0], doc(r#"{"type": "input_text", "text": "a"}"#));
    assert_eq!(items[1], doc(r#"{"type": "message", "role": "user"}"#));
}
#[test]
fn responses_to_chat_iter_request_input_items_none_is_empty() {
    let payload = req_with_input(Value::Null);
    assert!(input_items(&payload).is_empty());
}
/// Run `append_input_items` for the given `input` and return the messages.
fn build_messages(input: Value) -> Vec<Value> {
    build_messages_with_loss(input).0
}
/// Run `append_input_items` and return both the messages and the collected
/// transform-loss events, for tests asserting on degradation.
fn build_messages_with_loss(input: Value) -> (Vec<Value>, TransformLossCollector) {
    let payload = req_with_input(input);
    let tool_context = build_tool_context_from_request(&payload, UnsupportedToolPolicy::Ignore);
    let items = iter_request_input_items(payload.input.as_ref());
    let fresh = synthetic_tool_call_ids(items.len());
    let (messages, loss) = append_input_items(&items, Vec::new(), &tool_context, &fresh);
    (plain(&messages), loss)
}
#[test]
fn responses_to_chat_text_item_becomes_user_message() {
    let msgs = build_messages(doc(r#"[{"type": "input_text", "text": "hello"}]"#));
    assert_eq!(msgs.len(), 1);
    assert_eq!(msgs[0]["role"], doc(r#""user""#));
    assert_eq!(msgs[0]["content"], doc(r#""hello""#));
}
#[test]
fn responses_to_chat_function_call_item_becomes_assistant_tool_call() {
    let msgs = build_messages(doc(r#"[{"type": "function_call", "call_id": "c1", "name": "get_weather", "arguments": "{\"city\":\"Paris\"}"}]"#));
    assert_eq!(msgs.len(), 1);
    assert_eq!(msgs[0]["role"], doc(r#""assistant""#));
    let tc = &msgs[0]["tool_calls"][0];
    assert_eq!(tc["id"], doc(r#""c1""#));
    assert_eq!(tc["function"]["name"], doc(r#""get_weather""#));
    assert_eq!(tc["function"]["arguments"], doc(r#""{\"city\":\"Paris\"}""#));
}
#[test]
fn responses_to_chat_matched_function_call_output_becomes_tool_message() {
    // A tool output whose call_id matches a preceding call becomes a proper
    // tool-role message.
    let msgs = build_messages(doc(r#"[{"type": "function_call", "call_id": "c1", "name": "f", "arguments": "{}"}, {"type": "function_call_output", "call_id": "c1", "output": "sunny"}]"#));
    assert_eq!(msgs.len(), 2);
    assert_eq!(msgs[1]["role"], doc(r#""tool""#));
    assert_eq!(msgs[1]["tool_call_id"], doc(r#""c1""#));
    assert_eq!(msgs[1]["content"], doc(r#""sunny""#));
}
#[test]
fn responses_to_chat_orphan_function_call_output_downgrades_to_user() {
    // A tool output with no matching preceding call would be rejected by
    // Chat Completions as an orphan tool message, so it is downgraded to a
    // user message and recorded as transform loss.
    let (msgs, loss) = build_messages_with_loss(doc(r#"[{"type": "function_call_output", "call_id": "c1", "output": "sunny"}]"#));
    assert_eq!(msgs.len(), 1);
    assert_eq!(msgs[0]["role"], doc(r#""user""#));
    assert_eq!(
        msgs[0]["content"],
        doc(r#""Function call output (c1): sunny""#)
    );
    assert_eq!(loss.events().len(), 1);
    assert_eq!(
        loss.events()[0].kind,
        TransformLoss::DowngradedOrphanToolOutput
    );
}
#[test]
fn responses_to_chat_call_then_output_pairs_across_flush() {
    let msgs = build_messages(doc(r#"[{"type": "function_call", "call_id": "c1", "name": "f", "arguments": "{}"}, {"type": "function_call_output", "call_id": "c1", "output": "done"}]"#));
    // The pending tool-call flushes to an assistant message before the tool
    // output message is appended.
    assert_eq!(msgs.len(), 2);
    assert_eq!(msgs[0]["role"], doc(r#""assistant""#));
    assert_eq!(msgs[0]["tool_calls"][0]["id"], doc(r#""c1""#));
    assert_eq!(msgs[1]["role"], doc(r#""tool""#));
    assert_eq!(msgs[1]["tool_call_id"], doc(r#""c1""#));
}
#[test]
fn responses_to_chat_reasoning_before_tool_call_rides_on_assistant() {
    let msgs = build_messages(doc(r#"[{"type": "reasoning", "summary": [{"text": "because"}]}, {"type": "function_call", "call_id": "c1", "name": "f", "arguments": "{}"}]"#));
    assert_eq!(msgs.len(), 1);
    assert_eq!(msgs[0]["role"], doc(r#""assistant""#));
    assert_eq!(msgs[0]["reasoning_content"], doc(r#""because""#));
    assert_eq!(msgs[0]["tool_calls"][0]["id"], doc(r#""c1""#));
}
#[test]
fn responses_to_chat_reasoning_only_flushes_to_assistant_separator() {
    let msgs = build_messages(doc(r#"[{"type": "reasoning", "text": "lonely"}]"#));
    assert_eq!(msgs.len(), 1);
    assert_eq!(msgs[0]["role"], doc(r#""assistant""#));
    assert_eq!(msgs[0]["content"], doc(r#""""#));
    assert_eq!(msgs[0]["reasoning_content"], doc(r#""lonely""#));
}
#[test]
fn responses_to_chat_reasoning_backfills_preceding_assistant_message() {
    let msgs = build_messages(doc(r#"[{"type": "message", "role": "assistant", "content": "answer"}, {"type": "reasoning", "text": "afterthought"}]"#));
    assert_eq!(msgs.len(), 1);
    assert_eq!(msgs[0]["role"], doc(r#""assistant""#));
    assert_eq!(msgs[0]["reasoning_content"], doc(r#""afterthought""#));
}
#[test]
fn responses_to_chat_custom_tool_call_uses_input_as_arguments() {
    let msgs = build_messages(doc(r#"[{"type": "custom_tool_call", "call_id": "c1", "name": "runner", "input": "raw payload"}]"#));
    assert_eq!(
        msgs[0]["tool_calls"][0]["function"]["name"],
        doc(r#""runner""#)
    );
    assert_eq!(
        msgs[0]["tool_calls"][0]["function"]["arguments"],
        doc(r#""raw payload""#)
    );
}
#[test]
fn responses_to_chat_tool_search_call_maps_to_proxy_name() {
    let msgs = build_messages(doc(r#"[{"type": "tool_search_call", "call_id": "c1", "arguments": "{}"}]"#));
    assert_eq!(
        msgs[0]["tool_calls"][0]["function"]["name"],
        as_doc(TOOL_SEARCH_PROXY_NAME)
    );
}
#[test]
fn responses_to_chat_generic_message_maps_developer_role_to_system() {
    let msgs = build_messages(doc(r#"[{"type": "message", "role": "developer", "content": "sys text"}]"#));
    assert_eq!(msgs[0]["role"], doc(r#""system""#));
    assert_eq!(msgs[0]["content"], doc(r#""sys text""#));
}
#[test]
fn responses_to_chat_multiple_tool_calls_accumulate_into_one_assistant() {
    let msgs = build_messages(doc(r#"[{"type": "function_call", "call_id": "c1", "name": "f", "arguments": "{}"}, {"type": "function_call", "call_id": "c2", "name": "g", "arguments": "{}"}]"#));
    assert_eq!(msgs.len(), 1);
    let tcs = msgs[0]["tool_calls"].as_array().unwrap();
    assert_eq!(tcs.len(), 2);
    assert_eq!(tcs[0]["id"], doc(r#""c1""#));
    assert_eq!(tcs[1]["id"], doc(r#""c2""#));
}
/// Build a full `ResponsesRequest` from a raw JSON body.
fn req_from(body: Value) -> ResponsesRequest {
    request(body)
}
#[test]
fn responses_to_chat_responses_to_chat_sets_model_messages_and_stream_flag() {
    let payload = req_from(doc(r#"{"model": "gpt-x", "input": [{"type": "input_text", "text": "hi"}]}"#));
    let chat = responses_to_chat(&payload, "gpt-x");
    assert_eq!(chat.body["model"], doc(r#""gpt-x""#));
    assert_eq!(chat.body["stream"], doc(r#"false"#));
    let msgs = chat.body["messages"].as_array().unwrap();
    assert_eq!(msgs.last().unwrap()["content"], doc(r#""hi""#));
}
#[test]
fn responses_to_chat_responses_to_chat_prepends_instructions_as_system_head() {
    let payload = req_from(doc(r#"{"model": "m", "instructions": "be terse", "input": [{"type": "input_text", "text": "hi"}]}"#));
    let chat = responses_to_chat(&payload, "m");
    let msgs = chat.body["messages"].as_array().unwrap();
    assert_eq!(msgs[0]["role"], doc(r#""system""#));
    assert_eq!(msgs[0]["content"], doc(r#""be terse""#));
}
#[test]
fn responses_to_chat_responses_to_chat_converts_tools_and_tool_choice() {
    let payload = req_from(doc(r#"{"model": "m", "input": "hi", "tools": [{"type": "function", "name": "f", "parameters": {"type": "object"}}], "tool_choice": {"type": "function", "name": "f"}}"#));
    let chat = responses_to_chat(&payload, "m");
    assert_eq!(chat.body["tools"][0]["function"]["name"], doc(r#""f""#));
    assert_eq!(
        chat.body["tool_choice"],
        doc(r#"{"type": "function", "function": {"name": "f"}}"#)
    );
}
#[test]
fn responses_to_chat_responses_to_chat_maps_max_output_tokens_to_max_tokens() {
    let payload = req_from(doc(r#"{"model": "m", "input": "hi", "max_output_tokens": 128}"#));
    let chat = responses_to_chat(&payload, "m");
    assert_eq!(chat.body["max_tokens"], doc(r#"128"#));
    assert!(chat.body.get("max_completion_tokens").is_none());
}
#[test]
fn responses_to_chat_responses_to_chat_uses_max_completion_tokens_for_o_series() {
    let payload = req_from(doc(r#"{"model": "o3-mini", "input": "hi", "max_output_tokens": 64}"#));
    let chat = responses_to_chat(&payload, "o3-mini");
    assert_eq!(chat.body["max_completion_tokens"], doc(r#"64"#));
    assert!(chat.body.get("max_tokens").is_none());
}
#[test]
fn responses_to_chat_responses_to_chat_passes_sampling_params_through() {
    let payload = req_from(doc(r#"{"model": "m", "input": "hi", "temperature": 0.5, "top_p": 0.9}"#));
    let chat = responses_to_chat(&payload, "m");
    assert_eq!(chat.body["temperature"], doc(r#"0.5"#));
    assert_eq!(chat.body["top_p"], doc(r#"0.9"#));
}
#[test]
fn responses_to_chat_responses_to_chat_passes_response_format_through() {
    let payload = req_from(doc(r#"{"model": "m", "input": "hi", "response_format": {"type": "json_object"}}"#));
    let chat = responses_to_chat(&payload, "m");
    assert_eq!(
        chat.body["response_format"],
        doc(r#"{"type": "json_object"}"#)
    );
}
#[test]
fn responses_to_chat_responses_to_chat_passes_extra_passthrough_fields_through() {
    let payload = req_from(doc(r#"{"model": "m", "input": "hi", "seed": 42, "presence_penalty": 0.3}"#));
    let chat = responses_to_chat(&payload, "m");
    assert_eq!(chat.body["seed"], doc(r#"42"#));
    assert_eq!(chat.body["presence_penalty"], doc(r#"0.3"#));
}
#[test]
fn responses_to_chat_responses_to_chat_stream_uses_named_stream_options() {
    let payload = req_from(doc(r#"{"model": "m", "input": "hi", "stream": true, "stream_options": {"include_usage": false}}"#));
    let chat = responses_to_chat(&payload, "m");
    assert_eq!(chat.body["stream"], doc(r#"true"#));
    assert_eq!(
        chat.body["stream_options"],
        doc(r#"{"include_usage": false}"#)
    );
}
#[test]
fn responses_to_chat_responses_to_chat_stream_defaults_stream_options() {
    let payload = req_from(doc(r#"{"model": "m", "input": "hi", "stream": true}"#));
    let chat = responses_to_chat(&payload, "m");
    assert_eq!(
        chat.body["stream_options"],
        doc(r#"{"include_usage": true}"#)
    );
}
#[test]
fn responses_to_chat_responses_to_chat_non_stream_omits_stream_options() {
    let payload = req_from(doc(r#"{"model": "m", "input": "hi"}"#));
    let chat = responses_to_chat(&payload, "m");
    assert!(chat.body.get("stream_options").is_none());
}
#[test]
fn responses_to_chat_responses_to_chat_omits_tools_when_empty() {
    let payload = req_from(doc(r#"{"model": "m", "input": "hi", "tools": []}"#));
    let chat = responses_to_chat(&payload, "m");
    assert!(chat.body.get("tools").is_none());
    assert!(chat.body.get("tool_choice").is_none());
}
