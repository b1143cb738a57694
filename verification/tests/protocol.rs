use codex_chat_bridge::protocol::{ContentPartType, InputItemKind, ToolCallKind};

#[test]
fn input_item_kind_classifies_every_known_tag() {
    for (tag, kind) in [
        ("reasoning", InputItemKind::Reasoning),
        ("input_text", InputItemKind::Text),
        ("output_text", InputItemKind::Text),
        ("text", InputItemKind::Text),
        ("latest_reminder", InputItemKind::Text),
        ("input_image", InputItemKind::Image),
        ("input_audio", InputItemKind::Audio),
        ("function_call", InputItemKind::FunctionCall),
        ("custom_tool_call", InputItemKind::CustomToolCall),
        ("tool_search_call", InputItemKind::ToolSearchCall),
        ("function_call_output", InputItemKind::FunctionCallOutput),
        (
            "custom_tool_call_output",
            InputItemKind::CustomToolCallOutput,
        ),
        ("tool_search_output", InputItemKind::ToolSearchOutput),
        ("message", InputItemKind::Message),
    ] {
        assert_eq!(InputItemKind::classify(tag), kind, "tag={tag}");
    }
}

#[test]
fn input_item_kind_unknown_and_empty_are_other() {
    assert_eq!(InputItemKind::classify(""), InputItemKind::Other);
    assert_eq!(InputItemKind::classify("wat"), InputItemKind::Other);
}

#[test]
fn tool_call_kinds_round_trip_through_tag() {
    for kind in [
        ToolCallKind::Function,
        ToolCallKind::Custom,
        ToolCallKind::Search,
    ] {
        assert_eq!(
            InputItemKind::classify(kind.as_str()).as_tool_call(),
            Some(kind)
        );
    }
}

#[test]
fn non_tool_call_kinds_have_no_tool_call() {
    assert_eq!(InputItemKind::Reasoning.as_tool_call(), None);
    assert_eq!(InputItemKind::Message.as_tool_call(), None);
    assert_eq!(InputItemKind::FunctionCallOutput.as_tool_call(), None);
}

#[test]
fn content_part_is_text_covers_exactly_the_three() {
    assert!(ContentPartType::classify("input_text").is_text());
    assert!(ContentPartType::classify("output_text").is_text());
    assert!(ContentPartType::classify("text").is_text());
    assert!(!ContentPartType::classify("refusal").is_text());
    assert!(!ContentPartType::classify("image_url").is_text());
}
