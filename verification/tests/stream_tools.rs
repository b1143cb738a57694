use codex_chat_bridge::context::{BridgeToolContext, TOOL_SEARCH_PROXY_NAME};
use codex_chat_bridge::json::{Json, Object};
use codex_chat_bridge::stream_envelope::ResponseEnvelopeState;
use codex_chat_bridge::stream_tools::{ToolStateStore, NAMESPACE_BUFFER_MAX_BYTES};
use serde_json::Value;

/// The document that a text denotes.
fn doc(text: &str) -> Value {
    serde_json::from_str(text).unwrap()
}

/// A value as a document.
fn as_doc<T: Into<Value>>(value: T) -> Value {
    value.into()
}

/// An object with the given members.
fn members(entries: Vec<(&str, Value)>) -> Value {
    Value::Object(entries.into_iter().map(|(k, v)| (k.to_owned(), v)).collect())
}

/// A document as the library holds it.
fn lib(value: &Value) -> Json {
    Json::from_serde(value.clone())
}

fn env() -> ResponseEnvelopeState {
    ResponseEnvelopeState::new(Some("resp_bridge_abc"))
}

fn parse_event(bytes: &[u8]) -> (String, Value) {
    let text = String::from_utf8(bytes.to_vec()).unwrap();
    let mut event = String::new();
    let mut data = String::new();
    for line in text.lines() {
        if let Some(rest) = line.strip_prefix("event: ") {
            event = rest.to_owned();
        } else if let Some(rest) = line.strip_prefix("data: ") {
            data = rest.to_owned();
        }
    }
    (event, serde_json::from_str(&data).unwrap())
}

fn function_delta(index: i64, id: &str, name: &str, args: &str) -> Json {
    lib(&members(vec![
        ("index", as_doc(index)),
        ("id", as_doc(id)),
        (
            "function",
            members(vec![("name", as_doc(name)), ("arguments", as_doc(args))]),
        ),
    ]))
}

#[test]
fn function_call_added_then_arguments_then_done() {
    let mut store = ToolStateStore::new(BridgeToolContext::new());
    let mut envelope = env();

    let events = store.push_delta(
        &mut envelope,
        &function_delta(0, "call_1", "get_weather", "{\"city\":"),
        None,
    );
    // First delta: output_item.added, then a function_call_arguments.delta
    // replaying the accumulated arguments.
    assert_eq!(events.len(), 2);
    let (added_event, added) = parse_event(&events[0]);
    assert_eq!(added_event, "response.output_item.added");
    assert_eq!(added["item"]["type"], doc(r#""function_call""#));
    assert_eq!(added["item"]["status"], doc(r#""in_progress""#));
    assert_eq!(added["item"]["call_id"], doc(r#""call_1""#));
    assert_eq!(added["item"]["name"], doc(r#""get_weather""#));
    assert_eq!(added["output_index"], doc(r#"0"#));
    let (delta_event, delta) = parse_event(&events[1]);
    assert_eq!(delta_event, "response.function_call_arguments.delta");
    assert_eq!(delta["delta"], doc(r#""{\"city\":""#));

    // Second delta: only the new fragment streams out.
    let events = store.push_delta(
        &mut envelope,
        &function_delta(0, "call_1", "get_weather", "\"NYC\"}"),
        None,
    );
    assert_eq!(events.len(), 1);
    let (_, delta) = parse_event(&events[0]);
    assert_eq!(delta["delta"], doc(r#""\"NYC\"}""#));

    // Finalize: the first delta already replayed `{"city":` via
    // `emit_arguments_incremental` (which advanced `emitted_arguments`),
    // but the second delta streamed `"NYC"}` through the raw per-chunk
    // path, which intentionally does NOT advance `emitted_arguments`. So
    // finalize sees the canonical `emitted_arguments` (`{"city":`) still
    // trails the full `arguments` (`{"city":"NYC"}`) and emits one
    // `function_call_arguments.delta` carrying just the unreplayed tail
    // `"NYC"}` before `.done`. This lets a client reassembling from the
    // normalized-delta stream converge on the canonical value. Then come
    // `arguments.done` and `output_item.done`.
    let events = store.finalize(&mut envelope);
    assert_eq!(events.len(), 3);
    let (merged_event, merged) = parse_event(&events[0]);
    assert_eq!(merged_event, "response.function_call_arguments.delta");
    assert_eq!(merged["delta"], doc(r#""\"NYC\"}""#));
    let (done_event, done) = parse_event(&events[1]);
    assert_eq!(done_event, "response.function_call_arguments.done");
    assert_eq!(done["arguments"], doc(r#""{\"city\":\"NYC\"}""#));
    let (item_done_event, item_done) = parse_event(&events[2]);
    assert_eq!(item_done_event, "response.output_item.done");
    assert_eq!(item_done["item"]["status"], doc(r#""completed""#));
    assert_eq!(item_done["item"]["arguments"], doc(r#""{\"city\":\"NYC\"}""#));
}

#[test]
fn parallel_calls_keep_index_ordering() {
    let mut store = ToolStateStore::new(BridgeToolContext::new());
    let mut envelope = env();
    // Pre-allocate an output index (e.g. a preceding message) so the base
    // is non-zero and we can see base+index at work.
    assert_eq!(envelope.allocate_output_index(), 0);

    store.push_delta(
        &mut envelope,
        &function_delta(0, "call_a", "tool_a", "{}"),
        None,
    );
    store.push_delta(
        &mut envelope,
        &function_delta(1, "call_b", "tool_b", "{}"),
        None,
    );

    let events = store.finalize(&mut envelope);
    // Two calls × (arguments.done + output_item.done) = 4 events.
    let item_done: Vec<Value> = events
        .iter()
        .map(|e| parse_event(e))
        .filter(|(name, _)| name == "response.output_item.done")
        .map(|(_, v)| v)
        .collect();
    assert_eq!(item_done.len(), 2);
    assert_eq!(item_done[0]["output_index"], doc(r#"1"#));
    assert_eq!(item_done[0]["item"]["call_id"], doc(r#""call_a""#));
    assert_eq!(item_done[1]["output_index"], doc(r#"2"#));
    assert_eq!(item_done[1]["item"]["call_id"], doc(r#""call_b""#));
}

#[test]
fn custom_tool_streams_input_not_arguments() {
    let mut ctx = BridgeToolContext::new();
    ctx.add_custom_tool_name("run_script");
    let mut store = ToolStateStore::new(ctx);
    let mut envelope = env();

    let events = store.push_delta(
        &mut envelope,
        &function_delta(0, "call_c", "run_script", "{\"input\": \"echo "),
        None,
    );
    // added + custom_tool_call_input.delta with the decoded prefix.
    assert_eq!(events.len(), 2);
    let (added_event, added) = parse_event(&events[0]);
    assert_eq!(added_event, "response.output_item.added");
    assert_eq!(added["item"]["type"], doc(r#""custom_tool_call""#));
    assert_eq!(added["item"]["input"], doc(r#""""#));
    let (delta_event, delta) = parse_event(&events[1]);
    assert_eq!(delta_event, "response.custom_tool_call_input.delta");
    assert_eq!(delta["delta"], doc(r#""echo ""#));

    let events = store.push_delta(
        &mut envelope,
        &function_delta(0, "call_c", "run_script", "hi\"}"),
        None,
    );
    let (delta_event, delta) = parse_event(&events[0]);
    assert_eq!(delta_event, "response.custom_tool_call_input.delta");
    assert_eq!(delta["delta"], doc(r#""hi""#));

    let events = store.finalize(&mut envelope);
    let (done_event, done) = parse_event(&events[0]);
    assert_eq!(done_event, "response.custom_tool_call_input.done");
    assert_eq!(done["input"], doc(r#""echo hi""#));
    let (item_done_event, item_done) = parse_event(&events[1]);
    assert_eq!(item_done_event, "response.output_item.done");
    assert_eq!(item_done["item"]["type"], doc(r#""custom_tool_call""#));
    assert_eq!(item_done["item"]["input"], doc(r#""echo hi""#));
}

#[test]
fn tool_search_call_arguments_object() {
    let mut ctx = BridgeToolContext::new();
    ctx.add_tool_search_tool();
    let mut store = ToolStateStore::new(ctx);
    let mut envelope = env();

    store.push_delta(
        &mut envelope,
        &function_delta(
            0,
            "call_s",
            TOOL_SEARCH_PROXY_NAME,
            "{\"query\": \"rust\"}",
        ),
        None,
    );
    let events = store.finalize(&mut envelope);
    let (_, item_done) = parse_event(events.last().unwrap());
    assert_eq!(item_done["item"]["type"], doc(r#""tool_search_call""#));
    assert_eq!(item_done["item"]["execution"], doc(r#""client""#));
    assert_eq!(item_done["item"]["arguments"], doc(r#"{"query": "rust"}"#));
    // tool_search items carry no name.
    assert!(item_done["item"].get("name").is_none());
}

#[test]
fn synthetic_call_id_when_only_name_present() {
    let mut store = ToolStateStore::new(BridgeToolContext::new());
    let mut envelope = env();
    // Name but no id — identity is established (name is enough), so the
    // item opens immediately with a synthesized call id.
    let events = store.push_delta(
        &mut envelope,
        &lib(&doc(r#"{"index": 0, "function": {"name": "do_thing", "arguments": "{}"}}"#)),
        None,
    );
    let (added_event, added) = parse_event(&events[0]);
    assert_eq!(added_event, "response.output_item.added");
    assert!(added["item"]["call_id"]
        .as_str()
        .unwrap()
        .starts_with("call_"));
    assert_eq!(added["item"]["name"], doc(r#""do_thing""#));

    // A tool call carrying neither id nor name never establishes identity,
    // so it emits nothing on push and is skipped without an added item.
    let mut store = ToolStateStore::new(BridgeToolContext::new());
    let mut envelope = env();
    let events = store.push_delta(
        &mut envelope,
        &lib(&doc(r#"{"index": 0, "function": {"arguments": "{}"}}"#)),
        None,
    );
    assert!(events.is_empty());
}

#[test]
fn reasoning_content_attached_to_item() {
    let mut store = ToolStateStore::new(BridgeToolContext::new());
    let mut envelope = env();
    store.push_delta(
        &mut envelope,
        &function_delta(0, "call_r", "tool_r", "{}"),
        Some("thinking about it"),
    );
    let events = store.finalize(&mut envelope);
    let (_, item_done) = parse_event(events.last().unwrap());
    assert_eq!(
        item_done["item"]["reasoning_content"],
        doc(r#""thinking about it""#)
    );
}

#[test]
fn stream_tools_finalize_is_idempotent() {
    let mut store = ToolStateStore::new(BridgeToolContext::new());
    let mut envelope = env();
    store.push_delta(
        &mut envelope,
        &function_delta(0, "call_1", "tool", "{}"),
        None,
    );
    let first = store.finalize(&mut envelope);
    assert!(!first.is_empty());
    let second = store.finalize(&mut envelope);
    assert!(second.is_empty());
}

/// Build a context registering a nested `db` namespace with `read`/`write`
/// actions, returning `(context, flattened_chat_name)`.
fn nested_ctx(strategy: &str) -> (BridgeToolContext, String) {
    let mut ctx = BridgeToolContext::new();
    ctx.add_namespace_tool(&lib(&members(vec![
        ("type", as_doc("namespace")),
        ("name", as_doc("db")),
        ("strategy", as_doc(strategy)),
        (
            "tools",
            doc(r#"[{"type": "function", "name": "read"}, {"type": "function", "name": "write"}]"#),
        ),
    ])));
    let tool = ctx.chat_tools()[0].to_serde();
    let chat_name = tool["function"]["name"].as_str().unwrap().to_owned();
    (ctx, chat_name)
}

#[test]
fn nested_namespace_buffers_added_until_action_resolves() {
    let (ctx, chat_name) = nested_ctx("nested_oneof");
    let mut store = ToolStateStore::new(ctx);
    let mut envelope = env();

    // First delta carries the name but no parseable action yet — the call
    // is buffered, so nothing is emitted.
    let events = store.push_delta(
        &mut envelope,
        &function_delta(0, "call_n", &chat_name, "{\"acti"),
        None,
    );
    assert!(events.is_empty());

    // Completing the arguments resolves the action → deferred added + args.
    let events = store.push_delta(
        &mut envelope,
        &function_delta(0, "call_n", &chat_name, "on\":\"read\",\"id\":\"7\"}"),
        None,
    );
    let (added_event, added) = parse_event(&events[0]);
    assert_eq!(added_event, "response.output_item.added");
    assert_eq!(added["item"]["type"], doc(r#""function_call""#));
    // Name is restored to the concrete action, namespace to the original.
    assert_eq!(added["item"]["name"], doc(r#""read""#));
    assert_eq!(added["item"]["namespace"], doc(r#""db""#));

    let events = store.finalize(&mut envelope);
    let (_, item_done) = parse_event(events.last().unwrap());
    assert_eq!(item_done["item"]["name"], doc(r#""read""#));
    assert_eq!(item_done["item"]["namespace"], doc(r#""db""#));
    // The `action` envelope is unwrapped, leaving just the action args.
    assert_eq!(item_done["item"]["arguments"], doc(r#""{\"id\":\"7\"}""#));
}

#[test]
fn nested_anyof_flattens_params_envelope() {
    let (ctx, chat_name) = nested_ctx("nested_anyof");
    let mut store = ToolStateStore::new(ctx);
    let mut envelope = env();

    store.push_delta(
        &mut envelope,
        &function_delta(
            0,
            "call_n",
            &chat_name,
            "{\"action\":\"read\",\"params\":{\"id\":\"7\"}}",
        ),
        None,
    );
    let events = store.finalize(&mut envelope);
    let (_, item_done) = parse_event(events.last().unwrap());
    assert_eq!(item_done["item"]["name"], doc(r#""read""#));
    assert_eq!(item_done["item"]["namespace"], doc(r#""db""#));
    // `params` is flattened back out into the top-level arguments.
    assert_eq!(item_done["item"]["arguments"], doc(r#""{\"id\":\"7\"}""#));
}

#[test]
fn nested_namespace_degrades_when_action_never_resolves() {
    let (ctx, chat_name) = nested_ctx("nested_oneof");
    let mut store = ToolStateStore::new(ctx);
    let mut envelope = env();

    // A delta whose action never becomes valid stays buffered on push...
    let events = store.push_delta(
        &mut envelope,
        &function_delta(0, "call_n", &chat_name, "{\"other\":\"x\"}"),
        None,
    );
    assert!(events.is_empty());

    // ...and at finalize degrades to a namespace-level call.
    let events = store.finalize(&mut envelope);
    let (_, item_done) = parse_event(events.last().unwrap());
    assert_eq!(item_done["item"]["name"], doc(r#""db""#));
    assert_eq!(item_done["item"]["namespace"], doc(r#""db""#));
}

#[test]
fn nested_namespace_degrades_on_buffer_overflow() {
    let (ctx, chat_name) = nested_ctx("nested_oneof");
    let mut store = ToolStateStore::new(ctx);
    let mut envelope = env();

    // Flood the buffer past NAMESPACE_BUFFER_MAX_BYTES without ever closing
    // the action selector: the call degrades mid-stream rather than stalling.
    let filler = format!(
        "{{\"junk\":\"{}",
        "x".repeat(NAMESPACE_BUFFER_MAX_BYTES + 16)
    );
    let events = store.push_delta(
        &mut envelope,
        &function_delta(0, "call_n", &chat_name, &filler),
        None,
    );
    let (added_event, added) = parse_event(&events[0]);
    assert_eq!(added_event, "response.output_item.added");
    assert_eq!(added["item"]["name"], doc(r#""db""#));
    assert_eq!(added["item"]["namespace"], doc(r#""db""#));
}
