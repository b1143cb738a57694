use codex_chat_bridge::stream_envelope::ResponseEnvelopeState;
use codex_chat_bridge::stream_inline_think::InlineThinkStateMachine;
use codex_chat_bridge::stream_message::MessageState;
use codex_chat_bridge::stream_reasoning::ReasoningState;
use serde_json::Value;

fn parse_event(bytes: &[u8]) -> (String, Value) {
    let text = String::from_utf8(bytes.to_vec()).unwrap();
    let mut event = String::new();
    let mut data = String::new();
    for line in text.lines() {
        if let Some(rest) = line.strip_prefix("event: ") {
            event = rest.to_owned();
        } else if let Some(rest) = line.strip_prefix("data: ") {
            data = rest.to_owned();
        }
    }
    let value = if data.is_empty() {
        Value::Null
    } else {
        serde_json::from_str(&data).unwrap()
    };
    (event, value)
}

/// Collect the event `type` names in order, for order-sensitive assertions.
fn event_types(events: &[Vec<u8>]) -> Vec<String> {
    events.iter().map(|e| parse_event(e).0).collect()
}

struct Harness {
    sm: InlineThinkStateMachine,
    envelope: ResponseEnvelopeState,
    reasoning: ReasoningState,
    message: MessageState,
}

impl Harness {
    fn new() -> Self {
        Self {
            sm: InlineThinkStateMachine::new(),
            envelope: ResponseEnvelopeState::new(Some("resp_bridge_abc")),
            reasoning: ReasoningState::new(),
            message: MessageState::new(),
        }
    }

    fn push(&mut self, delta: &str) -> Vec<Vec<u8>> {
        self.sm.push_content_delta(
            delta,
            &mut self.envelope,
            &mut self.reasoning,
            &mut self.message,
        )
    }

    fn finalize(&mut self) -> Vec<Vec<u8>> {
        self.sm
            .flush_on_finalize(&mut self.envelope, &mut self.reasoning, &mut self.message)
    }

    fn force(&mut self) -> Vec<Vec<u8>> {
        self.sm
            .force_to_text(&mut self.envelope, &mut self.reasoning, &mut self.message)
    }
}

#[test]
fn plain_text_without_think_flushes_as_text() {
    let mut h = Harness::new();
    // "Hello" cannot be a think prefix, so it flushes immediately as text.
    let events = h.push("Hello");
    let types = event_types(&events);
    assert!(types.contains(&"response.output_item.added".to_owned()));
    assert!(types.contains(&"response.content_part.added".to_owned()));
    assert!(types.contains(&"response.output_text.delta".to_owned()));
    assert!(h.sm.is_text_phase());
}

#[test]
fn single_chunk_think_block_routes_reasoning_then_text() {
    let mut h = Harness::new();
    let events = h.push("<think>pondering</think>answer");
    let types = event_types(&events);
    // Reasoning opens + summary delta, finalizes, then text emits.
    assert!(types.contains(&"response.reasoning_summary_text.delta".to_owned()));
    assert!(types.contains(&"response.reasoning_summary_text.done".to_owned()));
    assert!(types.contains(&"response.output_text.delta".to_owned()));
    assert!(h.sm.is_text_phase());
}

#[test]
fn think_open_split_across_chunks_buffers_then_detects() {
    let mut h = Harness::new();
    // Partial "<thi" is a possible prefix — buffered silently, no events.
    let events = h.push("<thi");
    assert!(events.is_empty());
    assert!(h.sm.is_detecting_or_reasoning());
    // Completing the tag + content switches to reasoning.
    let events = h.push("nk>secret");
    let types = event_types(&events);
    assert!(types.contains(&"response.reasoning_summary_text.delta".to_owned()));
}

#[test]
fn close_tag_split_across_chunks_is_held_back() {
    let mut h = Harness::new();
    h.push("<think>abc");
    // "</thi" could start a close tag — held back, not emitted as reasoning.
    let events = h.push("</thi");
    let delta_texts: Vec<String> = events
        .iter()
        .filter_map(|e| {
            let (ev, data) = parse_event(e);
            if ev == "response.reasoning_summary_text.delta" {
                Some(data["delta"].as_str().unwrap_or_default().to_owned())
            } else {
                None
            }
        })
        .collect();
    // The held-back "</thi" must not appear in any reasoning delta.
    assert!(delta_texts.iter().all(|t| !t.contains("</thi")));
    // Completing the close tag finalizes reasoning and emits trailing text.
    let events = h.push("nk>done");
    let types = event_types(&events);
    assert!(types.contains(&"response.reasoning_summary_text.done".to_owned()));
    assert!(types.contains(&"response.output_text.delta".to_owned()));
}

#[test]
fn unclosed_think_block_finalizes_reasoning_on_flush() {
    let mut h = Harness::new();
    h.push("<think>still thinking");
    let events = h.finalize();
    let types = event_types(&events);
    assert!(types.contains(&"response.reasoning_summary_text.done".to_owned()));
    assert!(h.sm.is_text_phase());
}

#[test]
fn detecting_buffer_flushed_as_text_on_finalize() {
    let mut h = Harness::new();
    // A lone "<" stays in detecting (could be a partial tag).
    let events = h.push("<");
    assert!(events.is_empty());
    // Finalize flushes the buffer as text since no tag ever completed.
    let events = h.finalize();
    let types = event_types(&events);
    assert!(types.contains(&"response.output_text.delta".to_owned()));
}

#[test]
fn force_to_text_flushes_pending_reasoning() {
    let mut h = Harness::new();
    h.push("<think>partial");
    let events = h.force();
    let types = event_types(&events);
    // Pending reasoning is finalized so a following tool call is well-ordered.
    assert!(types.contains(&"response.reasoning_summary_text.done".to_owned()));
    assert!(h.sm.is_text_phase());
}

#[test]
fn force_to_text_is_noop_in_text_phase() {
    let mut h = Harness::new();
    h.push("plain");
    assert!(h.sm.is_text_phase());
    let events = h.force();
    assert!(events.is_empty());
}
