use codex_chat_bridge::json::Json;
use codex_chat_bridge::stream_envelope::ResponseEnvelopeState;
use codex_chat_bridge::stream_reasoning::ReasoningState;
use serde_json::Value;

/// The document that a text denotes.
fn doc(text: &str) -> Value {
    serde_json::from_str(text).unwrap()
}

/// Documents of the library as plain values.
fn plain(values: &Vec<Json>) -> Vec<Value> {
    values.iter().map(Json::to_serde).collect()
}

fn parse_event(bytes: &[u8]) -> (String, Value) {
    let text = String::from_utf8(bytes.to_vec()).unwrap();
    let mut event = String::new();
    let mut data = String::new();
    for line in text.lines() {
        if let Some(rest) = line.strip_prefix("event: ") {
            event = rest.to_owned();
        } else if let Some(rest) = line.strip_prefix("data: ") {
            data = rest.to_owned();
        }
    }
    (event, serde_json::from_str(&data).unwrap())
}

fn env() -> ResponseEnvelopeState {
    ResponseEnvelopeState::new(Some("resp_bridge_abc"))
}

#[test]
fn first_delta_opens_item_and_summary_part() {
    let mut e = env();
    let mut r = ReasoningState::new();
    let events = r.push_delta(&mut e, "hel");
    assert_eq!(events.len(), 3);
    let (ev0, d0) = parse_event(&events[0]);
    assert_eq!(ev0, "response.output_item.added");
    assert_eq!(d0["item"]["type"], doc(r#""reasoning""#));
    assert_eq!(d0["item"]["status"], doc(r#""in_progress""#));
    assert_eq!(d0["output_index"], doc(r#"0"#));
    let (ev1, d1) = parse_event(&events[1]);
    assert_eq!(ev1, "response.reasoning_summary_part.added");
    assert_eq!(d1["part"]["text"], doc(r#""""#));
    let (ev2, d2) = parse_event(&events[2]);
    assert_eq!(ev2, "response.reasoning_summary_text.delta");
    assert_eq!(d2["delta"], doc(r#""hel""#));
    assert_eq!(d2["summary_index"], doc(r#"0"#));
}

#[test]
fn stream_reasoning_subsequent_delta_only_emits_text_delta() {
    let mut e = env();
    let mut r = ReasoningState::new();
    r.push_delta(&mut e, "hel");
    let events = r.push_delta(&mut e, "lo");
    assert_eq!(events.len(), 1);
    let (ev, d) = parse_event(&events[0]);
    assert_eq!(ev, "response.reasoning_summary_text.delta");
    assert_eq!(d["delta"], doc(r#""lo""#));
    assert_eq!(r.text(), "hello");
}

#[test]
fn finalize_closes_with_done_events_and_registers_item() {
    let mut e = env();
    let mut r = ReasoningState::new();
    r.push_delta(&mut e, "think");
    let events = r.finalize(&mut e);
    assert_eq!(events.len(), 3);
    let (ev0, d0) = parse_event(&events[0]);
    assert_eq!(ev0, "response.reasoning_summary_text.done");
    assert_eq!(d0["text"], doc(r#""think""#));
    let (ev1, _) = parse_event(&events[1]);
    assert_eq!(ev1, "response.reasoning_summary_part.done");
    let (ev2, d2) = parse_event(&events[2]);
    assert_eq!(ev2, "response.output_item.done");
    assert_eq!(d2["item"]["summary"][0]["text"], doc(r#""think""#));
    // The completed item is registered with the envelope in output order.
    assert_eq!(plain(&e.completed_output_items())[0]["type"], doc(r#""reasoning""#));
}

#[test]
fn finalize_without_start_is_noop() {
    let mut e = env();
    let mut r = ReasoningState::new();
    assert!(r.finalize(&mut e).is_empty());
}

#[test]
fn delta_after_finalize_is_noop() {
    let mut e = env();
    let mut r = ReasoningState::new();
    r.push_delta(&mut e, "x");
    r.finalize(&mut e);
    assert!(r.push_delta(&mut e, "y").is_empty());
    assert_eq!(r.text(), "x");
}

#[test]
fn active_text_for_tools_trims_while_open_empty_once_done() {
    let mut e = env();
    let mut r = ReasoningState::new();
    r.push_delta(&mut e, "  spaced  ");
    assert_eq!(r.active_text_for_tools(), "spaced");
    r.finalize(&mut e);
    assert_eq!(r.active_text_for_tools(), "");
}
