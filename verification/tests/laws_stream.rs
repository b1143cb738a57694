use codex_chat_bridge::context::{
    partial_custom_tool_input_from_chat_arguments, partial_json_string_prefix, BridgeToolContext,
};
use codex_chat_bridge::convert::chat_to_responses::chat_to_responses;
use codex_chat_bridge::json::Json;
use codex_chat_bridge::sse::parse_sse_block;
use codex_chat_bridge::stream_chat_to_responses::{
    chat_message_to_fake_delta, drain_sse_blocks, process_chat_chunk, process_sse_message,
    sse_events_from_buffered_chat, ChatStream,
};
use codex_chat_bridge::stream_envelope::ResponseEnvelopeState;
use codex_chat_bridge::stream_responses_state::ResponsesStreamState;
use codex_chat_bridge::stream_tools::{argument_chunks, ToolStateStore};
use serde_json::Value;

/// The document that a text denotes, as the library holds it.
fn doc(text: &str) -> Json {
    Json::parse(text).unwrap()
}

/// The name and the payload of a frame.
fn event_of(bytes: &[u8]) -> (String, Value) {
    let text = String::from_utf8(bytes.to_vec()).unwrap();
    let (event, data) = parse_sse_block(&text);
    (event.unwrap(), serde_json::from_str(&data.unwrap()).unwrap())
}

/// The response that the last frame carries.
fn last_response(frames: &[Vec<u8>]) -> Value {
    event_of(frames.last().unwrap()).1["response"].clone()
}

/// The texts of all deltas of one kind.
fn deltas(frames: &[Vec<u8>], name: &str) -> String {
    frames
        .iter()
        .map(|f| event_of(f))
        .filter(|(event, _)| event == name)
        .map(|(_, payload)| payload["delta"].as_str().unwrap().to_owned())
        .collect()
}

/// The frames of content that comes in two pieces.
fn spoken(a: &str, b: &str) -> Vec<Vec<u8>> {
    let mut state = ResponsesStreamState::new(BridgeToolContext::new(), Some("resp_1"));
    let mut frames = state.ensure_started();
    frames.extend(state.push_content_delta(a));
    frames.extend(state.push_content_delta(b));
    state.set_finish_reason("stop");
    frames.extend(state.finalize(true));
    frames
}

#[test]
fn tags_are_found_wherever_they_are_split() {
    for text in [
        "<think>why</think>answer",
        "<THINKING>why</Thinking>answer",
        "  <think>why</think>answer",
        " \n<think   >why</thinking          >answer",
        "<think>why</think      >answer",
    ] {
        for at in 1..text.len() {
            let frames = spoken(&text[..at], &text[at..]);
            let output = last_response(&frames)["output"].clone();
            assert_eq!(output[0]["summary"][0]["text"], "why", "{text} at {at}");
            assert_eq!(output[1]["content"][0]["text"], "answer", "{text} at {at}");
            assert_eq!(deltas(&frames, "response.output_text.delta"), "answer");
            assert_eq!(deltas(&frames, "response.reasoning_summary_text.delta"), "why");
        }
    }
}

#[test]
fn plain_content_passes_through() {
    let frames = spoken("no <b> tag", " here</think>");
    assert_eq!(
        deltas(&frames, "response.output_text.delta"),
        "no <b> tag here</think>"
    );
    let frames = spoken(" \n", "text");
    assert_eq!(deltas(&frames, "response.output_text.delta"), " \ntext");
    let frames = spoken("  ", "\t");
    assert_eq!(deltas(&frames, "response.output_text.delta"), "  \t");
    let frames = spoken("<think>never closed", " </thi");
    assert_eq!(
        last_response(&frames)["output"][0]["summary"][0]["text"],
        "never closed </thi"
    );
}

#[test]
fn a_new_envelope_knows_the_time() {
    let envelope = ResponseEnvelopeState::new(None);
    assert!(envelope.created_at > 1_500_000_000);
    assert_eq!(envelope.response_id, "resp_bridge");
    assert_eq!(ResponseEnvelopeState::new_at(Some("r"), 7).created_at, 7);
}

#[test]
fn indices_only_move_forward() {
    let mut envelope = ResponseEnvelopeState::new(None);
    envelope.advance_output_index_to(5);
    envelope.advance_output_index_to(3);
    assert_eq!(envelope.peek_next_output_index(), 5);
    assert_eq!(envelope.allocate_output_index(), 5);
    assert_eq!(envelope.peek_next_output_index(), 6);
}

#[test]
fn items_of_one_index_stay_in_order() {
    let mut envelope = ResponseEnvelopeState::new(None);
    for (index, n) in [(1, 10), (0, 20), (1, 30), (0, 40)] {
        envelope.append_completed_item(index, Json::integer(n));
    }
    let numbers: Vec<i64> = envelope
        .completed_output_items()
        .iter()
        .map(|v| v.as_i64().unwrap())
        .collect();
    assert_eq!(numbers, [20, 40, 10, 30]);
}

#[test]
fn arguments_are_cut_at_characters() {
    assert!(argument_chunks("").is_empty());
    let text = "\u{e9}".repeat(70);
    let pieces = argument_chunks(&text);
    assert_eq!(pieces.concat(), text);
    assert_eq!(pieces[0].len(), 64);
    let odd = format!("x{}", "\u{20ac}".repeat(40));
    let pieces = argument_chunks(&odd);
    assert_eq!(pieces.concat(), odd);
    assert!(pieces.iter().all(|p| !p.is_empty() && p.len() <= 64));
    assert_eq!(pieces[0].len(), 64);
    assert_eq!(pieces[1].len(), 57);
}

#[test]
fn parallel_calls_stand_in_the_order_of_their_indices() {
    let mut store = ToolStateStore::new(BridgeToolContext::new());
    let mut envelope = ResponseEnvelopeState::new(Some("r"));
    envelope.allocate_output_index();
    for (index, id) in [(2, "c"), (0, "a"), (1, "b")] {
        store.push_delta(
            &mut envelope,
            &doc(&format!(
                r#"{{"index": {index}, "id": "{id}", "function": {{"name": "f", "arguments": "{{}}"}}}}"#
            )),
            None,
        );
    }
    store.finalize(&mut envelope);
    let ids: Vec<String> = envelope
        .completed_output_items()
        .iter()
        .map(|v| v.get_str("call_id").unwrap().to_owned())
        .collect();
    assert_eq!(ids, ["a", "b", "c"]);
    assert_eq!(envelope.peek_next_output_index(), 4);
    assert!(store.finalize(&mut envelope).is_empty());
    let late = doc(r#"{"index": 9, "id": "z", "function": {"name": "f"}}"#);
    assert!(store.push_delta(&mut envelope, &late, None).is_empty());
}

#[test]
fn input_of_custom_tools_adds_up() {
    let mut ctx = BridgeToolContext::new();
    ctx.add_custom_tool_name("run");
    let mut store = ToolStateStore::new(ctx);
    let mut envelope = ResponseEnvelopeState::new(Some("r"));
    let arguments = r#"{"input": "aé \"q\" \n end"}"#;
    let mut frames = Vec::new();
    for piece in arguments.split_inclusive(' ') {
        let call = Json::from_serde(
            serde_json::from_str::<Value>(
                r#"{"index": 0, "id": "c", "function": {"name": "run", "arguments": ""}}"#,
            )
            .map(|mut v| {
                v["function"]["arguments"] = Value::from(piece);
                v
            })
            .unwrap(),
        );
        frames.extend(store.push_delta(&mut envelope, &call, None));
    }
    frames.extend(store.finalize(&mut envelope));
    assert_eq!(
        deltas(&frames, "response.custom_tool_call_input.delta"),
        "a\u{e9} \"q\" \n end"
    );
}

#[test]
fn turns_send_one_terminal_event() {
    let terminal = |frames: &[Vec<u8>]| {
        frames
            .iter()
            .filter(|f| {
                let name = event_of(f).0;
                name == "response.completed" || name == "response.failed"
            })
            .count()
    };
    for failing in [false, true] {
        let mut state = ResponsesStreamState::new(BridgeToolContext::new(), Some("r"));
        let mut frames = state.ensure_started();
        frames.extend(state.push_reasoning_delta("why"));
        frames.extend(state.push_content_delta("text"));
        frames.extend(state.push_tool_call_delta(
            &doc(r#"{"index": 0, "id": "c", "function": {"name": "f", "arguments": "{}"}}"#),
            None,
        ));
        assert_eq!(terminal(&frames), 0);
        let last = if failing {
            state.fail("boom", "stream_error")
        } else {
            state.finalize(true)
        };
        assert_eq!(terminal(&last), 1);
        assert_eq!(terminal(&last[last.len() - 1..]), 1);
        assert!(state.finalize(true).is_empty());
        assert!(state.fail("again", "stream_error").is_empty());
    }
}

#[test]
fn calls_without_identity_leave_nothing_behind() {
    let mut store = ToolStateStore::new(BridgeToolContext::new());
    let mut envelope = ResponseEnvelopeState::new(Some("resp_bridge_abc"));
    let nameless = doc(r#"{"index": 0, "function": {"arguments": "{}"}}"#);
    assert!(store.push_delta(&mut envelope, &nameless, None).is_empty());
    assert!(store.finalize(&mut envelope).is_empty());
    assert!(envelope.completed_output_items().is_empty());
}

#[test]
fn streamed_input_is_decoded() {
    let known = |arguments: &str| partial_custom_tool_input_from_chat_arguments(arguments);
    assert_eq!(
        known(r#"{"input": "a\ud83d\ude00b"#).as_deref(),
        Some("a\u{1F600}b")
    );
    assert_eq!(partial_json_string_prefix(r"a\ud83d\ude00b"), "a\u{1F600}b");
    assert_eq!(partial_json_string_prefix(r"a\ud83d\ude0"), "a");
    assert_eq!(partial_json_string_prefix(r"a\ud83dx"), "a");
    assert_eq!(partial_json_string_prefix(r"a\ude00b"), "a");
    assert_eq!(partial_json_string_prefix(r"a\ud83d\u0041b"), "a");
    assert_eq!(partial_json_string_prefix(r"a\u+041b"), "aAb");
    assert_eq!(partial_json_string_prefix(r"a\u-041b"), "a");
    assert_eq!(partial_json_string_prefix(r"a\u0+41b"), "a");
    assert_eq!(partial_json_string_prefix(r"\u00e9\n"), "\u{e9}\n");
}

#[test]
fn calls_without_a_name_are_kept_out_of_the_message() {
    let mut state = ResponsesStreamState::new(BridgeToolContext::new(), Some("r"));
    state.push_tool_call_delta(&doc(r#"{"index": 1, "function": {"arguments": "{}"}}"#), None);
    assert!(state.build_assistant_message().is_none());
    state.push_tool_call_delta(
        &doc(r#"{"index": 0, "function": {"name": "f", "arguments": "{\u0000}"}}"#),
        Some("why"),
    );
    state.push_reasoning_delta("  because  ");
    state.push_text_delta("said");
    let message = state.build_assistant_message().unwrap().to_serde();
    assert_eq!(message["role"], "assistant");
    assert_eq!(message["content"], "said");
    assert_eq!(message["reasoning_content"], "because");
    assert_eq!(message["tool_calls"].as_array().unwrap().len(), 1);
    assert_eq!(message["tool_calls"][0]["function"]["name"], "f");
    assert_eq!(message["tool_calls"][0]["function"]["arguments"], "{}");
    let id = message["tool_calls"][0]["id"].as_str().unwrap();
    assert!(id.starts_with("call_auto_"));
}

#[test]
fn only_turns_that_can_go_on_are_kept() {
    let ended = |reason: Option<&str>, cleanly: bool| {
        let mut state = ResponsesStreamState::new(BridgeToolContext::new(), Some("r"));
        state.push_content_delta("text");
        if let Some(r) = reason {
            state.set_finish_reason(r);
        }
        assert!(!state.should_persist());
        state.finalize(cleanly);
        state.should_persist()
    };
    assert!(ended(Some("stop"), false));
    assert!(ended(Some("tool_calls"), true));
    assert!(!ended(Some("length"), true));
    assert!(!ended(Some("content_filter"), true));
    assert!(ended(None, true));
    assert!(!ended(None, false));
    let mut failed = ResponsesStreamState::new(BridgeToolContext::new(), Some("r"));
    failed.push_content_delta("text");
    failed.fail("boom", "stream_error");
    assert!(!failed.should_persist());
}

#[test]
fn whole_choices_become_deltas() {
    let choice = doc(
        r#"{"message": {"content": "hi", "refusal": "no", "annotations": [], "reasoning": "r",
            "tool_calls": [{"id": "a"}, 5, {"id": "b"}]}}"#,
    );
    assert_eq!(
        chat_message_to_fake_delta(&choice).to_serde(),
        serde_json::from_str::<Value>(
            r#"{"role": "assistant", "content": "hi", "refusal": "no", "annotations": [],
                "reasoning_content": "r",
                "tool_calls": [{"id": "a", "index": 0}, {"id": "b", "index": 1}]}"#
        )
        .unwrap()
    );
    assert_eq!(
        chat_message_to_fake_delta(&Json::Null).to_serde(),
        serde_json::from_str::<Value>(r#"{"role": "assistant", "content": null}"#).unwrap()
    );
}

#[test]
fn messages_are_drained_in_order() {
    let (messages, rest) = drain_sse_blocks(
        "event: a\ndata: 1\n\n: comment\n\n \n\ndata:\n\ndata: 2\r\ndata: 3\r\n\r\ndata: 4",
    );
    assert_eq!(
        messages,
        vec![
            (Some("a".to_owned()), "1".to_owned()),
            (None, "2\n3".to_owned()),
        ]
    );
    assert_eq!(rest, "data: 4");
    let text = "data: 1\r\n\r\nevent: e\r\ndata: 2\r\ndata: 3\r\n\r\n\r\ndata: 4\r";
    let (whole, left) = drain_sse_blocks(text);
    assert_eq!(whole.len(), 2);
    for at in 0..text.len() {
        let (mut first, rest) = drain_sse_blocks(&text[..at]);
        let (second, end) = drain_sse_blocks(&format!("{rest}{}", &text[at..]));
        first.extend(second);
        assert_eq!(first, whole, "split at {at}");
        assert_eq!(end.replace("\r\n", "\n"), left.replace("\r\n", "\n"));
    }
}

/// The frames of a Chat stream that comes in pieces of the given size.
fn streamed(bytes: &[u8], size: usize) -> Vec<(String, Value)> {
    let mut stream = ChatStream::new(BridgeToolContext::new(), Some("resp_1"), None);
    let mut frames = Vec::new();
    for piece in bytes.chunks(size) {
        frames.extend(stream.receive(piece));
    }
    frames.extend(stream.finish());
    frames
        .iter()
        .map(|f| {
            let (name, mut payload) = event_of(f);
            if payload.get("response").is_some() {
                payload["response"]["created_at"] = Value::Null;
            }
            (name, payload)
        })
        .collect()
}

#[test]
fn streams_are_the_same_for_all_pieces() {
    let bytes = concat_frames(&[
        r#"{"model": "m", "choices": [{"delta": {"reasoning_content": "h€"}}]}"#,
        r#"{"choices": [{"delta": {"content": "é"}}]}"#,
        r#"{"choices": [{"delta": {"tool_calls": [{"index": 0, "id": "c", "function": {"name": "f", "arguments": "{}"}}]}}]}"#,
        r#"{"choices": [{"delta": {}, "finish_reason": "tool_calls"}], "usage": {"prompt_tokens": 1}}"#,
        "[DONE]",
    ]);
    let whole = streamed(&bytes, bytes.len());
    assert_eq!(whole.last().unwrap().0, "response.completed");
    let crlf: Vec<u8> = String::from_utf8(bytes.clone())
        .unwrap()
        .replace('\n', "\r\n")
        .into_bytes();
    for size in [1, 2, 3, 7, 50] {
        assert_eq!(streamed(&bytes, size), whole, "pieces of {size}");
        assert_eq!(streamed(&crlf, size), whole, "pieces of {size}");
    }
}

/// Frames that carry the given data.
fn concat_frames(list: &[&str]) -> Vec<u8> {
    list.iter()
        .map(|d| format!("data: {d}\n\n"))
        .collect::<String>()
        .into_bytes()
}

#[test]
fn broken_bytes_are_counted() {
    let mut stream = ChatStream::new(BridgeToolContext::new(), None, None);
    assert!(stream.receive(b": \xff\xfe\n\n").is_empty());
    stream.receive(b"data: \xe2\x82");
    let frames = stream.finish();
    assert_eq!(stream.replacements(), 3);
    assert_eq!(event_of(frames.last().unwrap()).0, "response.failed");
    assert!(stream.kept_message().is_none());
}

#[test]
fn what_is_left_without_an_empty_line_still_counts() {
    let mut stream = ChatStream::new(BridgeToolContext::new(), None, None);
    stream.receive(br#"data: {"choices": [{"delta": {"content": "end"}, "finish_reason": "stop"}]}"#);
    let frames = stream.finish();
    assert_eq!(last_response(&frames)["status"], "completed");
    let kept = stream.kept_message().unwrap().unwrap().to_serde();
    assert_eq!(kept["content"], "end");
}

#[test]
fn messages_that_are_no_objects_are_skipped() {
    let mut state = ResponsesStreamState::new(BridgeToolContext::new(), None);
    assert!(process_sse_message(None, "[1, 2]", &mut state).is_empty());
    assert!(process_sse_message(None, "not json", &mut state).is_empty());
    let frames = process_sse_message(None, r#"{"error": "down"}"#, &mut state);
    let response = last_response(&frames);
    assert_eq!(response["error"]["message"], "down");
    assert_eq!(response["error"]["type"], "stream_error");
    assert!(process_sse_message(None, " [DONE] ", &mut state).is_empty());
}

#[test]
fn structured_content_is_taken_part_by_part() {
    let mut state = ResponsesStreamState::new(BridgeToolContext::new(), Some("r"));
    let Json::Object(chunk) = doc(
        r#"{"choices": [{"delta": {"content": [
            {"type": "text", "text": "one", "annotations": [{"n": 1}, 2]},
            {"type": "output_text", "text": "two"},
            {"type": "refusal", "refusal": "no"},
            {"type": "image"}]}, "finish_reason": "stop"}]}"#,
    ) else {
        panic!("an object");
    };
    process_chat_chunk(&chunk, None, &mut state);
    let frames = state.finalize(true);
    let content = last_response(&frames)["output"][0]["content"].clone();
    assert_eq!(content[0]["text"], "one");
    assert_eq!(content[0]["annotations"].as_array().unwrap().len(), 1);
    assert_eq!(content[1]["text"], "two");
    assert_eq!(content[2]["refusal"], "no");
}

#[test]
fn items_have_the_same_ids_streamed_or_whole() {
    let body = doc(
        r#"{"choices": [{"message": {"content": "hi", "reasoning_content": "why",
            "tool_calls": [{"id": "c1", "function": {"name": "f", "arguments": "{}"}}]},
            "finish_reason": "tool_calls"}]}"#,
    );
    let ids = |response: &Value| {
        let list: Vec<String> = response["output"]
            .as_array()
            .unwrap()
            .iter()
            .map(|item| item["id"].as_str().unwrap().to_owned())
            .collect();
        list
    };
    let ctx = BridgeToolContext::new();
    let whole = chat_to_responses(&body, "m", None, "r1", &ctx).to_serde();
    let frames = sse_events_from_buffered_chat(&body, ctx, Some("r1"), None);
    assert_eq!(ids(&whole), ["rs_r1", "msg_r1", "fc_c1"]);
    assert_eq!(ids(&last_response(&frames)), ids(&whole));
}

#[test]
fn whole_bodies_end_their_turn() {
    let body = doc(r#"{"model": "m", "choices": []}"#);
    let frames = sse_events_from_buffered_chat(&body, BridgeToolContext::new(), Some("r"), None);
    assert_eq!(event_of(frames.last().unwrap()).0, "response.failed");
    let body = doc(r#"{"choices": [{"message": {"content": "x"}}]}"#);
    let frames = sse_events_from_buffered_chat(&body, BridgeToolContext::new(), Some("r"), None);
    assert_eq!(last_response(&frames)["status"], "completed");
}
