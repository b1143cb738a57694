use codex_chat_bridge::config::UnsupportedToolPolicy;
use codex_chat_bridge::context::{custom_tool_input_from_chat_arguments, flatten_namespace_tool_name, partial_custom_tool_input_from_chat_arguments, resolve_nested_namespace_arguments, BridgeToolContext, NamespaceStrategy, ToolKind, ToolSpec, CHAT_TOOL_NAME_MAX_LEN, TOOL_SEARCH_PROXY_NAME};
use codex_chat_bridge::context;
use codex_chat_bridge::json::{Json, Object};
use codex_chat_bridge::types::ResponsesRequest;
use serde_json::Value;

/// The document that a text denotes.
fn doc(text: &str) -> Value {
    serde_json::from_str(text).unwrap()
}

/// An object with the given members.
fn members(entries: Vec<(&str, Value)>) -> Value {
    Value::Object(entries.into_iter().map(|(k, v)| (k.to_owned(), v)).collect())
}

/// Documents of the library as plain values.
fn plain(values: &Vec<Json>) -> Vec<Value> {
    values.iter().map(Json::to_serde).collect()
}

/// An object as the library holds it.
fn lib_object(map: &serde_json::Map<String, Value>) -> Object {
    match Json::from_serde(Value::Object(map.clone())) {
        Json::Object(o) => o,
        _ => unreachable!(),
    }
}

/// The request that a body says.
fn request(body: Value) -> ResponsesRequest {
    ResponsesRequest::from_object(&lib_object(body.as_object().unwrap())).unwrap()
}

fn build_tool_context_from_request(payload: &ResponsesRequest) -> BridgeToolContext {
    context::build_tool_context_from_request(payload, UnsupportedToolPolicy::Ignore)
}

/// The tools of a registry as plain values.
fn chat_tools(ctx: &BridgeToolContext) -> Vec<Value> {
    plain(ctx.chat_tools())
}

fn parse_tool_arguments_object(arguments: &str) -> Value {
    context::parse_tool_arguments_object(arguments).to_serde()
}

fn req(tools: Value) -> ResponsesRequest {
    request(members(vec![("tools", tools)]))
}

#[test]
fn custom_and_tool_search_classification() {
    let ctx = build_tool_context_from_request(&req(doc(r#"[{"type": "custom", "name": "my_custom"}, {"type": "tool_search"}]"#)));
    assert!(ctx.is_custom_tool(Some("my_custom")));
    assert!(!ctx.is_custom_tool(Some("other")));
    assert!(!ctx.is_custom_tool(None));
    assert!(ctx.is_tool_search(Some(TOOL_SEARCH_PROXY_NAME)));
    assert!(!ctx.is_tool_search(Some("my_custom")));
}

#[test]
fn function_tool_becomes_chat_tool() {
    let ctx = build_tool_context_from_request(&req(doc(r#"[{"type": "function", "name": "get_weather", "description": "Get weather", "parameters": {"type": "object", "properties": {"city": {"type": "string"}}}}]"#)));
    assert_eq!(chat_tools(&ctx).len(), 1);
    let tools = chat_tools(&ctx);
    let f = &tools[0]["function"];
    assert_eq!(f["name"], doc(r#""get_weather""#));
    assert_eq!(f["description"], doc(r#""Get weather""#));
}

#[test]
fn flat_namespace_flattens_child_names() {
    let ctx = build_tool_context_from_request(&req(doc(r#"[{"type": "namespace", "name": "github", "strategy": "flat", "tools": [{"type": "function", "name": "create_issue", "parameters": {}}]}]"#)));
    assert_eq!(chat_tools(&ctx).len(), 1);
    assert_eq!(
        chat_tools(&ctx)[0]["function"]["name"],
        doc(r#""github__create_issue""#)
    );
    // Forward and reverse maps round-trip.
    assert_eq!(
        ctx.chat_name_for_function("create_issue", Some("github")),
        "github__create_issue"
    );
    assert_eq!(
        ctx.restore_namespace_and_name("github__create_issue"),
        (Some("github".to_owned()), "create_issue".to_owned())
    );
}

#[test]
fn long_namespace_name_is_hashed() {
    let long = "a".repeat(70);
    let flat = flatten_namespace_tool_name("ns", &long);
    assert_eq!(flat.len(), CHAT_TOOL_NAME_MAX_LEN);
    assert!(flat.contains("__"));
    // Deterministic.
    assert_eq!(flat, flatten_namespace_tool_name("ns", &long));
}

#[test]
fn restore_only_splits_registered_namespaces() {
    let ctx = BridgeToolContext::new();
    // Unregistered "foo__bar" must not be mis-parsed as namespaced.
    assert_eq!(
        ctx.restore_namespace_and_name("foo__bar"),
        (None, "foo__bar".to_owned())
    );
}

#[test]
fn nested_oneof_builds_action_selector() {
    let ctx = build_tool_context_from_request(&req(doc(r#"[{"type": "namespace", "name": "db", "strategy": "nested_oneof", "tools": [{"type": "function", "name": "read", "parameters": {"type": "object", "properties": {"id": {"type": "string"}}, "required": ["id"]}}, {"type": "function", "name": "write", "parameters": {"type": "object", "properties": {"row": {"type": "object"}}}}]}]"#)));
    assert_eq!(chat_tools(&ctx).len(), 1);
    let tools = chat_tools(&ctx);
    let schema = &tools[0]["function"]["parameters"];
    let variants = schema["oneOf"].as_array().unwrap();
    assert_eq!(variants.len(), 2);
    // First variant carries an action enum locked to "read" plus its params.
    assert_eq!(
        variants[0]["properties"]["action"]["enum"][0],
        doc(r#""read""#)
    );
    assert!(variants[0]["required"]
        .as_array()
        .unwrap()
        .contains(&doc(r#""action""#)));
    let spec = ctx
        .lookup_chat_name(Some(
            chat_tools(&ctx)[0]["function"]["name"].as_str().unwrap(),
        ))
        .unwrap();
    assert!(spec.is_nested_namespace());
    assert_eq!(spec.actions.as_ref().unwrap(), &["read", "write"]);
}

#[test]
fn nested_anyof_resolution_flattens_params() {
    let spec = ToolSpec {
        kind: ToolKind::Namespace,
        name: "db".to_owned(),
        namespace: Some("db".to_owned()),
        namespace_strategy: Some(NamespaceStrategy::NestedAnyof),
        actions: Some(vec!["read".to_owned()]),
    };
    let res =
        resolve_nested_namespace_arguments(&spec, r#"{"action":"read","params":{"id":"7"}}"#);
    assert_eq!(res.action_name.as_deref(), Some("read"));
    assert_eq!(res.normalized_arguments, r#"{"id":"7"}"#);
}

#[test]
fn nested_resolution_unknown_action_is_none() {
    let spec = ToolSpec {
        kind: ToolKind::Namespace,
        name: "db".to_owned(),
        namespace: Some("db".to_owned()),
        namespace_strategy: Some(NamespaceStrategy::NestedOneof),
        actions: Some(vec!["read".to_owned()]),
    };
    let res = resolve_nested_namespace_arguments(&spec, r#"{"action":"delete"}"#);
    assert_eq!(res.action_name, None);
    assert_eq!(res.normalized_arguments, "{}");
}

#[test]
fn hosted_tool_ignored_by_default() {
    let ctx = build_tool_context_from_request(&req(doc(r#"[{"type": "web_search"}, {"type": "function", "name": "f", "parameters": {}}]"#)));
    // Hosted tool dropped under the default ignore policy; function kept.
    assert_eq!(chat_tools(&ctx).len(), 1);
    assert_eq!(chat_tools(&ctx)[0]["function"]["name"], doc(r#""f""#));
}

#[test]
fn merge_unions_tools_and_flags() {
    let mut base = build_tool_context_from_request(&req(doc(r#"[{"type": "function", "name": "a", "parameters": {}}]"#)));
    let other = build_tool_context_from_request(&req(doc(r#"[{"type": "function", "name": "b", "parameters": {}}, {"type": "tool_search"}]"#)));
    base.merge(&other);
    let tools = chat_tools(&base);
    let names: Vec<&str> = tools
        .iter()
        .map(|t| t["function"]["name"].as_str().unwrap())
        .collect();
    assert!(names.contains(&"a"));
    assert!(names.contains(&"b"));
    assert!(names.contains(&TOOL_SEARCH_PROXY_NAME));
    assert!(base.is_tool_search(Some(TOOL_SEARCH_PROXY_NAME)));
}

#[test]
fn dedup_by_chat_name() {
    let ctx = build_tool_context_from_request(&req(doc(r#"[{"type": "function", "name": "dup", "parameters": {}}, {"type": "function", "name": "dup", "parameters": {}}]"#)));
    assert_eq!(chat_tools(&ctx).len(), 1);
}

#[test]
fn custom_input_full_extraction() {
    assert_eq!(custom_tool_input_from_chat_arguments(""), "");
    assert_eq!(
        custom_tool_input_from_chat_arguments(r#"{"input": "hello"}"#),
        "hello"
    );
    assert_eq!(
        custom_tool_input_from_chat_arguments(r#"{"input": 42}"#),
        r#"{"input": 42}"#
    );
    assert_eq!(
        custom_tool_input_from_chat_arguments("not json"),
        "not json"
    );
}

#[test]
fn tool_search_arguments_object() {
    assert_eq!(parse_tool_arguments_object(""), doc(r#"{}"#));
    assert_eq!(
        parse_tool_arguments_object(r#"{"q": 1}"#),
        doc(r#"{"q": 1}"#)
    );
    assert_eq!(
        parse_tool_arguments_object("raw text"),
        doc(r#"{"query": "raw text"}"#)
    );
}

#[test]
fn partial_input_prefix_streaming() {
    assert_eq!(partial_custom_tool_input_from_chat_arguments("{"), None);
    assert_eq!(
        partial_custom_tool_input_from_chat_arguments(r#"{"in"#),
        None
    );
    assert_eq!(
        partial_custom_tool_input_from_chat_arguments(r#"{"input": "hel"#),
        Some("hel".to_owned())
    );
    assert_eq!(
        partial_custom_tool_input_from_chat_arguments(r#"{"input": "hello"}"#),
        Some("hello".to_owned())
    );
}

#[test]
fn partial_input_decodes_escapes() {
    assert_eq!(
        partial_custom_tool_input_from_chat_arguments(r#"{"input": "line\n\ttab"#),
        Some("line\n\ttab".to_owned())
    );
    assert_eq!(
        partial_custom_tool_input_from_chat_arguments(r#"{"input": "trail\"#),
        Some("trail".to_owned())
    );
    assert_eq!(
        partial_custom_tool_input_from_chat_arguments(r#"{"input": "A\u0042C"#),
        Some("ABC".to_owned())
    );
}
