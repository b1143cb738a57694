use codex_chat_bridge::config::{Config, ConfigError, UnsupportedToolPolicy, Variables};
use serde_json::Value;

fn from_env(vars: &[(&str, &str)]) -> Result<Config, ConfigError> {
    let vars = Variables {
        entries: vars.iter().map(|(k, v)| ((*k).to_owned(), (*v).to_owned())).collect(),
    };
    Config::from_variables(&vars, None, None)
}

#[test]
fn requires_upstream_base_url() {
    let err = from_env(&[]).unwrap_err();
    assert_eq!(err.code, "upstream_base_url_empty");
}

#[test]
fn defaults_are_applied() {
    let cfg = from_env(&[("BRIDGE_UPSTREAM_BASE_URL", "http://up/v1/")]).unwrap();
    assert_eq!(cfg.upstream_base_url, "http://up/v1"); // trailing slash trimmed
    assert_eq!(cfg.port, 18090);
    assert!(cfg.upstream_streaming);
    assert_eq!(cfg.max_concurrent_requests, 20);
    assert_eq!(cfg.unsupported_tool_policy, UnsupportedToolPolicy::Ignore);
    assert_eq!(cfg.models_url(), "http://up/v1/models");
}

#[test]
fn rejects_bad_tool_policy() {
    let err = from_env(&[
        ("BRIDGE_UPSTREAM_BASE_URL", "http://up/v1"),
        ("BRIDGE_UNSUPPORTED_TOOL_POLICY", "bogus"),
    ])
    .unwrap_err();
    assert_eq!(err.code, "tool_policy_invalid");
}

#[test]
fn parses_json_and_csv_collections() {
    let cfg = from_env(&[
        ("BRIDGE_UPSTREAM_BASE_URL", "http://up/v1"),
        ("BRIDGE_UPSTREAM_TOOL_DENYLIST", "a, b ,,c"),
        ("BRIDGE_UPSTREAM_DROP_PARAMS", r#"["x","y"]"#),
        ("BRIDGE_UPSTREAM_EXTRA_PARAMS", r#"{"k":1}"#),
    ])
    .unwrap();
    assert_eq!(cfg.upstream_tool_denylist, ["a", "b", "c"]);
    assert_eq!(cfg.upstream_drop_params, ["x", "y"]);
    assert_eq!(
        cfg.upstream_extra_params.get("k").map(|v| v.to_serde()),
        Some(Value::from(1))
    );
}

#[test]
fn rejects_non_object_extra_params() {
    let err = from_env(&[
        ("BRIDGE_UPSTREAM_BASE_URL", "http://up/v1"),
        ("BRIDGE_UPSTREAM_EXTRA_PARAMS", "[1,2]"),
    ])
    .unwrap_err();
    assert_eq!(err.code, "config_invalid_json_object");
}

#[test]
fn every_setting_is_read() {
    let cfg = from_env(&[
        ("BRIDGE_UPSTREAM_BASE_URL", "http://up//"),
        ("BRIDGE_UPSTREAM_API_KEY", "secret"),
        ("BRIDGE_HOST", "127.0.0.1"),
        ("BRIDGE_PORT", " +8080 "),
        ("BRIDGE_UPSTREAM_STREAMING", "No"),
        ("BRIDGE_UPSTREAM_MAX_RETRIES", "5"),
        ("BRIDGE_MAX_CONCURRENT_REQUESTS", "3"),
        ("BRIDGE_MAX_BODY_BYTES", "1024"),
        ("BRIDGE_UNSUPPORTED_TOOL_POLICY", " Passthrough "),
        ("BRIDGE_INBOUND_API_KEYS", "k1,k2"),
    ])
    .unwrap();
    assert_eq!(cfg.upstream_base_url, "http://up");
    assert_eq!(cfg.upstream_api_key, "secret");
    assert_eq!(cfg.host, "127.0.0.1");
    assert_eq!(cfg.port, 8080);
    assert!(!cfg.upstream_streaming);
    assert_eq!(cfg.upstream_max_retries, 5);
    assert_eq!(cfg.max_concurrent_requests, 3);
    assert_eq!(cfg.max_body_bytes, 1024);
    assert_eq!(cfg.unsupported_tool_policy, UnsupportedToolPolicy::Passthrough);
    assert_eq!(cfg.inbound_api_keys, ["k1", "k2"]);
    assert_eq!(cfg.chat_completions_url(), "http://up/chat/completions");
}

#[test]
fn faults_are_told_in_full() {
    let with = |key: &'static str, value: &'static str| {
        let err = from_env(&[("BRIDGE_UPSTREAM_BASE_URL", "http://up"), (key, value)]).unwrap_err();
        (err.to_text(), err.code)
    };
    assert_eq!(
        with("BRIDGE_PORT", "65536"),
        (
            "BRIDGE_PORT must be an integer, got \"65536\" (config_invalid_int)".to_owned(),
            "config_invalid_int"
        )
    );
    assert_eq!(with("BRIDGE_PORT", "-1").1, "config_invalid_int");
    assert_eq!(with("BRIDGE_PORT", "+").1, "config_invalid_int");
    assert_eq!(with("BRIDGE_UPSTREAM_MAX_RETRIES", "4294967296").1, "config_invalid_int");
    assert_eq!(
        with("BRIDGE_MAX_CONCURRENT_REQUESTS", "0"),
        (
            "BRIDGE_MAX_CONCURRENT_REQUESTS must be >= 1 (concurrency_invalid)".to_owned(),
            "concurrency_invalid"
        )
    );
    assert_eq!(with("BRIDGE_MAX_BODY_BYTES", "0").1, "max_body_bytes_invalid");
    assert_eq!(
        with("BRIDGE_UPSTREAM_DROP_PARAMS", "[\"a\", 7]").0,
        "BRIDGE_UPSTREAM_DROP_PARAMS must be a JSON array of strings, got member 7 \
         (config_invalid_json_array)"
    );
    assert_eq!(
        with("BRIDGE_UPSTREAM_DROP_PARAMS", "{}").0,
        "BRIDGE_UPSTREAM_DROP_PARAMS must be a JSON array of strings, got {} \
         (config_invalid_json_array)"
    );
    assert_eq!(
        with("BRIDGE_UPSTREAM_EXTRA_PARAMS", "{").0,
        "BRIDGE_UPSTREAM_EXTRA_PARAMS must be a JSON object, got invalid JSON: EOF while parsing \
         an object at line 1 column 1 (config_invalid_json_object)"
    );
    assert_eq!(
        with("BRIDGE_UNSUPPORTED_TOOL_POLICY", "Bogus").0,
        "BRIDGE_UNSUPPORTED_TOOL_POLICY must be one of [error, ignore, passthrough, reject], got \
         \"bogus\" (tool_policy_invalid)"
    );
}

#[test]
fn faults_of_the_time_budgets_come_in_their_turn() {
    let vars = Variables {
        entries: vec![
            ("BRIDGE_UPSTREAM_BASE_URL".to_owned(), "http://up".to_owned()),
            ("BRIDGE_MAX_CONCURRENT_REQUESTS".to_owned(), "0".to_owned()),
        ],
    };
    let fault = |code| Some(ConfigError::new("bad".to_owned(), code));
    let err = Config::from_variables(&vars, fault("timeout_invalid"), None).unwrap_err();
    assert_eq!(err.code, "timeout_invalid");
    let err = Config::from_variables(&vars, None, fault("queue_timeout_invalid")).unwrap_err();
    assert_eq!(err.code, "concurrency_invalid");
}
