use codex_chat_bridge::middleware::resolve_request_id;

#[test]
fn valid_request_id_is_preserved() {
    let header = "abc-123_XYZ";
    assert_eq!(resolve_request_id(Some(header)), "abc-123_XYZ");
}

#[test]
fn blank_request_id_is_replaced() {
    let header = "   ";
    // A fresh uuid simple form is 32 hex chars.
    assert_eq!(resolve_request_id(Some(header)).len(), 32);
}

#[test]
fn oversized_request_id_is_replaced() {
    let long = "a".repeat(129);
    let header = long.as_str();
    assert_eq!(resolve_request_id(Some(header)).len(), 32);
}

#[test]
fn non_printable_request_id_is_replaced() {
    let header = "bad id with space";
    assert_eq!(resolve_request_id(Some(header)).len(), 32);
}
