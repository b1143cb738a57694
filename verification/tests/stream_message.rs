use codex_chat_bridge::json::Json;
use codex_chat_bridge::stream_envelope::ResponseEnvelopeState;
use codex_chat_bridge::stream_message::MessageState;
use serde_json::Value;

/// The document that a text denotes.
fn doc(text: &str) -> Value {
    serde_json::from_str(text).unwrap()
}

/// A document as the library holds it.
fn lib(value: &Value) -> Json {
    Json::from_serde(value.clone())
}

/// Documents of the library as plain values.
fn plain(values: &Vec<Json>) -> Vec<Value> {
    values.iter().map(Json::to_serde).collect()
}

fn env() -> ResponseEnvelopeState {
    ResponseEnvelopeState::new(Some("resp_bridge_abc"))
}

fn parse_event(bytes: &[u8]) -> (String, Value) {
    let text = String::from_utf8(bytes.to_vec()).unwrap();
    let mut event = String::new();
    let mut data = String::new();
    for line in text.lines() {
        if let Some(rest) = line.strip_prefix("event: ") {
            event = rest.to_owned();
        } else if let Some(rest) = line.strip_prefix("data: ") {
            data = rest.to_owned();
        }
    }
    (event, serde_json::from_str(&data).unwrap())
}

fn events_of(raw: &[Vec<u8>]) -> Vec<(String, Value)> {
    raw.iter().map(|b| parse_event(b)).collect()
}

#[test]
fn first_delta_opens_item_and_content_part_then_delta() {
    let mut env = env();
    let mut msg = MessageState::new();
    let evs = events_of(&msg.push_text_delta(&mut env, "hello"));
    let names: Vec<&str> = evs.iter().map(|(n, _)| n.as_str()).collect();
    assert_eq!(
        names,
        [
            "response.output_item.added",
            "response.content_part.added",
            "response.output_text.delta",
        ]
    );
    assert_eq!(evs[0].1["item"]["type"], doc(r#""message""#));
    assert_eq!(evs[0].1["item"]["status"], doc(r#""in_progress""#));
    assert_eq!(evs[2].1["delta"], doc(r#""hello""#));
    assert_eq!(evs[2].1["content_index"], doc(r#"0"#));
}

#[test]
fn stream_message_subsequent_delta_only_emits_text_delta() {
    let mut env = env();
    let mut msg = MessageState::new();
    msg.push_text_delta(&mut env, "a");
    let evs = events_of(&msg.push_text_delta(&mut env, "b"));
    let names: Vec<&str> = evs.iter().map(|(n, _)| n.as_str()).collect();
    assert_eq!(names, ["response.output_text.delta"]);
    assert_eq!(evs[0].1["delta"], doc(r#""b""#));
    assert_eq!(msg.text(), "ab");
}

#[test]
fn finalize_closes_text_and_emits_item_done_completed() {
    let mut env = env();
    let mut msg = MessageState::new();
    msg.push_text_delta(&mut env, "hi");
    let evs = events_of(&msg.finalize(&mut env));
    let names: Vec<&str> = evs.iter().map(|(n, _)| n.as_str()).collect();
    assert_eq!(
        names,
        [
            "response.output_text.done",
            "response.content_part.done",
            "response.output_item.done",
        ]
    );
    assert_eq!(evs[0].1["text"], doc(r#""hi""#));
    assert_eq!(evs[2].1["item"]["status"], doc(r#""completed""#));
    assert_eq!(evs[2].1["item"]["content"][0]["text"], doc(r#""hi""#));
}

#[test]
fn stream_message_finalize_is_idempotent() {
    let mut env = env();
    let mut msg = MessageState::new();
    msg.push_text_delta(&mut env, "hi");
    assert!(!msg.finalize(&mut env).is_empty());
    assert!(msg.finalize(&mut env).is_empty());
}

#[test]
fn finalize_without_content_is_noop() {
    let mut env = env();
    let mut msg = MessageState::new();
    assert!(msg.finalize(&mut env).is_empty());
}

#[test]
fn refusal_emits_added_then_done() {
    let mut env = env();
    let mut msg = MessageState::new();
    let evs = events_of(&msg.push_refusal_part(&mut env, "no"));
    let names: Vec<&str> = evs.iter().map(|(n, _)| n.as_str()).collect();
    assert_eq!(
        names,
        [
            "response.output_item.added",
            "response.content_part.added",
            "response.content_part.done",
        ]
    );
    assert_eq!(evs[1].1["part"]["type"], doc(r#""refusal""#));
    assert_eq!(evs[1].1["part"]["refusal"], doc(r#""no""#));
}

#[test]
fn pending_annotations_attach_to_next_text_segment() {
    let mut env = env();
    let mut msg = MessageState::new();
    msg.add_annotations(Some(&lib(&doc(r#"[{"type": "url_citation", "url": "x"}]"#))));
    let evs = events_of(&msg.push_text_delta(&mut env, "hi"));
    // content_part.added carries the drained annotations.
    let part = &evs[1].1["part"];
    assert_eq!(part["annotations"][0]["type"], doc(r#""url_citation""#));
}

#[test]
fn mid_segment_annotations_extend_open_segment() {
    let mut env = env();
    let mut msg = MessageState::new();
    msg.push_text_delta(&mut env, "hi");
    msg.add_annotations(Some(&lib(&doc(r#"[{"type": "a"}]"#))));
    let evs = events_of(&msg.finalize(&mut env));
    // content_part.done carries the annotation added mid-segment.
    assert_eq!(evs[1].1["part"]["annotations"][0]["type"], doc(r#""a""#));
}

#[test]
fn add_annotations_ignores_non_array_and_non_object() {
    let mut env = env();
    let mut msg = MessageState::new();
    msg.add_annotations(Some(&lib(&doc(r#""nope""#))));
    msg.add_annotations(Some(&lib(&doc(r#"[1, "two", true]"#))));
    let evs = events_of(&msg.push_text_delta(&mut env, "hi"));
    assert_eq!(evs[1].1["part"]["annotations"], doc(r#"[]"#));
}

#[test]
fn flush_then_new_delta_starts_second_segment() {
    let mut env = env();
    let mut msg = MessageState::new();
    msg.push_text_delta(&mut env, "a");
    let closed = events_of(&msg.flush_open_text_part(&mut env));
    let closed_names: Vec<&str> = closed.iter().map(|(n, _)| n.as_str()).collect();
    assert_eq!(
        closed_names,
        ["response.output_text.done", "response.content_part.done"]
    );
    let evs = events_of(&msg.push_text_delta(&mut env, "b"));
    // A new content part opens at content_index 1.
    let names: Vec<&str> = evs.iter().map(|(n, _)| n.as_str()).collect();
    assert_eq!(
        names,
        ["response.content_part.added", "response.output_text.delta"]
    );
    assert_eq!(evs[0].1["content_index"], doc(r#"1"#));
    assert_eq!(evs[1].1["content_index"], doc(r#"1"#));
}

#[test]
fn content_parts_reflects_text_and_refusal_order() {
    let mut env = env();
    let mut msg = MessageState::new();
    msg.push_text_delta(&mut env, "hi");
    msg.flush_open_text_part(&mut env);
    msg.push_refusal_part(&mut env, "no");
    let parts = plain(&msg.content_parts());
    assert_eq!(parts[0]["type"], doc(r#""output_text""#));
    assert_eq!(parts[0]["text"], doc(r#""hi""#));
    assert_eq!(parts[1]["type"], doc(r#""refusal""#));
    assert_eq!(parts[1]["refusal"], doc(r#""no""#));
}

#[test]
fn push_after_done_is_suppressed() {
    let mut env = env();
    let mut msg = MessageState::new();
    msg.push_text_delta(&mut env, "hi");
    msg.finalize(&mut env);
    assert!(msg.push_text_delta(&mut env, "more").is_empty());
    assert!(msg.push_refusal_part(&mut env, "no").is_empty());
}
