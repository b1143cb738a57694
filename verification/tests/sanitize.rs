use codex_chat_bridge::sanitize::sanitize_string;

#[test]
fn preserves_whitespace_controls() {
    assert_eq!(sanitize_string("a\nb\tc\rd"), "a\nb\tc\rd");
}

#[test]
fn strips_low_controls_and_nul() {
    assert_eq!(sanitize_string("a\u{0}b\u{1}c\u{1f}d"), "abcd");
}

#[test]
fn clean_string_unchanged() {
    assert_eq!(sanitize_string("hello world"), "hello world");
    assert_eq!(sanitize_string(""), "");
}
