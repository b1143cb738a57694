use codex_chat_bridge::reasoning::{normalize_canonical_effort, wire_reasoning_effort, CanonicalEffort};

#[test]
fn normalize_table_matches_python() {
    assert_eq!(
        normalize_canonical_effort(None),
        CanonicalEffort::Unspecified
    );
    assert_eq!(
        normalize_canonical_effort(Some("")),
        CanonicalEffort::Unspecified
    );
    assert_eq!(
        normalize_canonical_effort(Some("off")),
        CanonicalEffort::Off
    );
    assert_eq!(
        normalize_canonical_effort(Some("minimal")),
        CanonicalEffort::Off
    );
    assert_eq!(
        normalize_canonical_effort(Some("low")),
        CanonicalEffort::High
    );
    assert_eq!(
        normalize_canonical_effort(Some("high")),
        CanonicalEffort::High
    );
    assert_eq!(
        normalize_canonical_effort(Some("max")),
        CanonicalEffort::XHigh
    );
    assert_eq!(
        normalize_canonical_effort(Some("turbo")),
        CanonicalEffort::High
    );
}

#[test]
fn kimi_never_sends_effort() {
    assert_eq!(
        wire_reasoning_effort("moonshot/kimi-k2", CanonicalEffort::High),
        None
    );
    assert_eq!(
        wire_reasoning_effort("deepseek-v3", CanonicalEffort::High),
        Some("high")
    );
    assert_eq!(
        wire_reasoning_effort("gpt-4o", CanonicalEffort::XHigh),
        Some("xhigh")
    );
    assert_eq!(
        wire_reasoning_effort("gpt-4o", CanonicalEffort::Unspecified),
        None
    );
}
