use codex_chat_bridge::json::{Json, Object};
use codex_chat_bridge::media::{host_from_authority, is_blocked_host, is_safe_audio_url, is_safe_image_url, MediaConversion};
use codex_chat_bridge::media;
use serde_json::Value;

/// The document that a text denotes.
fn doc(text: &str) -> Value {
    serde_json::from_str(text).unwrap()
}

/// An object as the library holds it.
fn lib_object(map: &serde_json::Map<String, Value>) -> Object {
    match Json::from_serde(Value::Object(map.clone())) {
        Json::Object(o) => o,
        _ => unreachable!(),
    }
}

fn image_part_from_input_item(item: &serde_json::Map<String, Value>) -> MediaConversion {
    media::image_part_from_input_item(&lib_object(item))
}

fn audio_part_from_input_item(item: &serde_json::Map<String, Value>) -> MediaConversion {
    media::audio_part_from_input_item(&lib_object(item))
}

fn part(conv: MediaConversion) -> Value {
    match conv {
        MediaConversion::Part(v) => v.to_serde(),
        MediaConversion::Rejected(r) => panic!("expected part, got rejection: {r}"),
    }
}

fn reason(conv: MediaConversion) -> String {
    match conv {
        MediaConversion::Rejected(r) => r,
        MediaConversion::Part(v) => panic!("expected rejection, got part: {v:?}"),
    }
}

// ---- SSRF host classification ----

#[test]
fn blocks_loopback_private_linklocal_metadata() {
    assert!(is_blocked_host("127.0.0.1"));
    assert!(is_blocked_host("10.0.0.5"));
    assert!(is_blocked_host("192.168.1.1"));
    assert!(is_blocked_host("172.16.0.1"));
    assert!(is_blocked_host("169.254.169.254")); // cloud metadata
    assert!(is_blocked_host("0.0.0.0"));
    assert!(is_blocked_host("100.64.0.1")); // CGNAT
    assert!(is_blocked_host("[::1]"));
    assert!(is_blocked_host("[fe80::1]"));
    assert!(is_blocked_host("[fc00::1]"));
    assert!(is_blocked_host(""));
}

#[test]
fn allows_public_hosts_and_dns_names() {
    assert!(!is_blocked_host("93.184.216.34")); // example.com
    assert!(!is_blocked_host("example.com"));
    assert!(!is_blocked_host("cdn.openai.com"));
    assert!(!is_blocked_host("[2606:2800:220:1::1]"));
}

#[test]
fn host_extraction_strips_port_userinfo_path() {
    assert_eq!(host_from_authority("example.com/path"), "example.com");
    assert_eq!(host_from_authority("example.com:443/x"), "example.com");
    assert_eq!(host_from_authority("user:pw@example.com/x"), "example.com");
    assert_eq!(host_from_authority("[::1]:8443/x"), "::1");
    assert_eq!(host_from_authority("host?q=1"), "host");
}

// ---- URL safety ----

#[test]
fn image_url_safety_rules() {
    assert!(is_safe_image_url("https://cdn.example.com/a.png"));
    assert!(is_safe_image_url("data:image/png;base64,AAAA"));
    assert!(!is_safe_image_url("data:audio/wav;base64,AAAA")); // wrong prefix
    assert!(!is_safe_image_url("http://example.com/a.png")); // not https
    assert!(!is_safe_image_url("https://127.0.0.1/a.png")); // SSRF
    assert!(!is_safe_image_url(
        "https://169.254.169.254/latest/meta-data"
    ));
    assert!(!is_safe_image_url("file:///etc/passwd"));
    assert!(!is_safe_image_url(""));
}

#[test]
fn audio_url_safety_rules() {
    assert!(is_safe_audio_url("https://cdn.example.com/a.mp3"));
    assert!(is_safe_audio_url("data:audio/wav;base64,AAAA"));
    assert!(!is_safe_audio_url("data:image/png;base64,AAAA"));
    assert!(!is_safe_audio_url("https://10.0.0.1/a.mp3"));
}

// ---- image conversion ----

#[test]
fn image_flat_url_builds_part() {
    let item = doc(r#"{"type": "input_image", "image_url": "https://ex.com/a.png"}"#);
    let p = part(image_part_from_input_item(item.as_object().unwrap()));
    assert_eq!(p["type"], doc(r#""image_url""#));
    assert_eq!(p["image_url"]["url"], doc(r#""https://ex.com/a.png""#));
}

#[test]
fn image_nested_object_preserves_detail() {
    let item = doc(r#"{"type": "input_image", "image_url": {"url": "https://ex.com/a.png", "detail": "high"}}"#);
    let p = part(image_part_from_input_item(item.as_object().unwrap()));
    assert_eq!(p["image_url"]["detail"], doc(r#""high""#));
}

#[test]
fn image_top_level_detail_folded_in() {
    let item = doc(r#"{"type": "input_image", "image_url": "https://ex.com/a.png", "detail": "low"}"#);
    let p = part(image_part_from_input_item(item.as_object().unwrap()));
    assert_eq!(p["image_url"]["detail"], doc(r#""low""#));
}

#[test]
fn image_unsafe_url_rejected() {
    let item = doc(r#"{"type": "input_image", "image_url": "http://127.0.0.1/a.png"}"#);
    let r = reason(image_part_from_input_item(item.as_object().unwrap()));
    assert!(r.contains("unsafe image URL"));
}

#[test]
fn image_missing_url_rejected() {
    let item = doc(r#"{"type": "input_image"}"#);
    let r = reason(image_part_from_input_item(item.as_object().unwrap()));
    assert!(r.contains("missing url"));
}

// ---- audio conversion ----

#[test]
fn audio_url_builds_part() {
    let item = doc(r#"{"type": "input_audio", "audio_url": "https://ex.com/a.mp3"}"#);
    let p = part(audio_part_from_input_item(item.as_object().unwrap()));
    assert_eq!(p["input_audio"]["url"], doc(r#""https://ex.com/a.mp3""#));
}

#[test]
fn audio_nested_shape_takes_precedence() {
    let item = doc(r#"{"type": "input_audio", "format": "mp3", "input_audio": {"data": "QUJD", "format": "flac"}}"#);
    let p = part(audio_part_from_input_item(item.as_object().unwrap()));
    assert_eq!(
        p["input_audio"]["data"],
        doc(r#""data:audio/flac;base64,QUJD""#)
    );
}

#[test]
fn audio_prebuilt_data_uri_passthrough() {
    let item = doc(r#"{"type": "input_audio", "data": "data:audio/wav;base64,QUJD"}"#);
    let p = part(audio_part_from_input_item(item.as_object().unwrap()));
    assert_eq!(
        p["input_audio"]["data"],
        doc(r#""data:audio/wav;base64,QUJD""#)
    );
}

#[test]
fn audio_base64_with_format_synthesizes_data_uri() {
    let item = doc(r#"{"type": "input_audio", "data": "QUJD", "format": "mp3"}"#);
    let p = part(audio_part_from_input_item(item.as_object().unwrap()));
    assert_eq!(
        p["input_audio"]["data"],
        doc(r#""data:audio/mp3;base64,QUJD""#)
    );
}

#[test]
fn audio_base64_defaults_format_to_wav() {
    let item = doc(r#"{"type": "input_audio", "data": "QUJD"}"#);
    let p = part(audio_part_from_input_item(item.as_object().unwrap()));
    assert_eq!(
        p["input_audio"]["data"],
        doc(r#""data:audio/wav;base64,QUJD""#)
    );
}

#[test]
fn audio_unsupported_format_rejected() {
    let item = doc(r#"{"type": "input_audio", "data": "QUJD", "format": "exe"}"#);
    let r = reason(audio_part_from_input_item(item.as_object().unwrap()));
    assert!(r.contains("unsupported audio format"));
}

#[test]
fn audio_unsafe_url_rejected() {
    let item = doc(r#"{"type": "input_audio", "audio_url": "https://192.168.0.1/a.mp3"}"#);
    let r = reason(audio_part_from_input_item(item.as_object().unwrap()));
    assert!(r.contains("unsafe audio URL"));
}

#[test]
fn audio_missing_everything_rejected() {
    let item = doc(r#"{"type": "input_audio"}"#);
    let r = reason(audio_part_from_input_item(item.as_object().unwrap()));
    assert!(r.contains("missing url and data"));
}
