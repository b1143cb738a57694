use codex_chat_bridge::context::BridgeToolContext;
use codex_chat_bridge::json::Json;
use codex_chat_bridge::reasoning_cache::ReasoningCache;
use codex_chat_bridge::session_store::{SessionRecord, SessionStore, DEFAULT_MAX_SESSIONS, DEFAULT_TTL};
use serde_json::Value;

/// The document that a text denotes.
fn doc(text: &str) -> Value {
    serde_json::from_str(text).unwrap()
}

/// A document as the library holds it.
fn lib(value: &Value) -> Json {
    Json::from_serde(value.clone())
}

/// A moment, in nanoseconds.
const NOW: u64 = 5_000_000_000;
/// A millisecond, in nanoseconds.
const MILLISECOND: u64 = 1_000_000;

fn record(model: &str) -> SessionRecord {
    SessionRecord::new(
        vec![lib(&doc(r#"{"role": "user", "content": "hi"}"#))],
        BridgeToolContext::new(),
        model.to_owned(),
        ReasoningCache::new(),
    )
}

#[test]
fn save_then_get_roundtrips() {
    let mut store = SessionStore::new(DEFAULT_TTL, DEFAULT_MAX_SESSIONS);
    store.save("resp_1", record("gpt-x"), NOW);
    let got = store.get("resp_1", NOW).expect("record present");
    assert_eq!(got.model, "gpt-x");
    assert_eq!(got.messages.len(), 1);
}

#[test]
fn missing_id_is_none() {
    let mut store = SessionStore::new(DEFAULT_TTL, DEFAULT_MAX_SESSIONS);
    assert!(store.get("nope", NOW).is_none());
}

#[test]
fn expired_entry_is_evicted_on_get() {
    let mut store = SessionStore::new(0, DEFAULT_MAX_SESSIONS);
    store.save("resp_1", record("gpt-x"), NOW);
    // TTL is zero, so any elapsed time expires the entry.
    assert!(store.get("resp_1", NOW + MILLISECOND).is_none());
    assert_eq!(store.active_count(), 0);
}

#[test]
fn cap_evicts_when_exceeded() {
    let mut store = SessionStore::new(DEFAULT_TTL, 2);
    store.save("a", record("m"), NOW);
    store.save("b", record("m"), NOW + MILLISECOND);
    store.save("c", record("m"), NOW + 2 * MILLISECOND);
    // Cap is 2, so the oldest ("a") is evicted.
    assert_eq!(store.active_count(), 2);
    assert!(store.get("a", NOW + 2 * MILLISECOND).is_none());
    assert!(store.get("b", NOW + 2 * MILLISECOND).is_some());
    assert!(store.get("c", NOW + 2 * MILLISECOND).is_some());
}

#[test]
fn stored_record_is_isolated_from_later_mutation() {
    let mut store = SessionStore::new(DEFAULT_TTL, DEFAULT_MAX_SESSIONS);
    store.save("resp_1", record("gpt-x"), NOW);
    let mut got = store.get("resp_1", NOW).expect("record present");
    got.messages
        .push(lib(&doc(r#"{"role": "assistant", "content": "mutated"}"#)));
    // The stored copy is untouched.
    let again = store.get("resp_1", NOW).expect("record present");
    assert_eq!(again.messages.len(), 1);
}
