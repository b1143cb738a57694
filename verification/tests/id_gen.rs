use codex_chat_bridge::id_gen::{custom_tool_call_item_id, function_call_item_id, message_item_id, new_response_id, reasoning_item_id, synthetic_tool_call_id};

/// What every response id begins with.
const RESPONSE_ID_PREFIX: &str = "resp_bridge_";

#[test]
fn response_id_carries_prefix_and_fixed_length() {
    let id = new_response_id();
    assert!(id.starts_with(RESPONSE_ID_PREFIX));
    // prefix + 12 hex chars
    assert_eq!(id.len(), RESPONSE_ID_PREFIX.len() + 12);
}

#[test]
fn response_ids_are_unique_per_call() {
    assert_ne!(new_response_id(), new_response_id());
}

#[test]
fn id_gen_item_ids_derive_from_response_id() {
    let rid = "resp_bridge_abc123";
    assert_eq!(reasoning_item_id(rid), "rs_resp_bridge_abc123");
    assert_eq!(message_item_id(rid), "msg_resp_bridge_abc123");
}

#[test]
fn tool_item_ids_derive_from_call_id() {
    assert_eq!(function_call_item_id("call_1"), "fc_call_1");
    assert_eq!(custom_tool_call_item_id("call_1"), "ctc_call_1");
}

#[test]
fn synthetic_call_id_is_prefixed_and_unique() {
    let a = synthetic_tool_call_id();
    assert!(a.starts_with("call_auto_"));
    assert_eq!(a.len(), "call_auto_".len() + 16);
    assert_ne!(a, synthetic_tool_call_id());
}
