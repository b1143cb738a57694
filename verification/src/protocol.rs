//! Kinds of Responses input items and content parts.
//!
//! The `type` tag of an item is turned into one of a closed set of kinds, on
//! which the conversions dispatch. The payload of the item stays a document.
use vstd::prelude::*;
use crate::text::same;

verus! {

/// The kind of a top-level input item.
#[derive(Debug, Clone, Copy, PartialEq, Eq, Structural)]
pub enum InputItemKind {
    Reasoning,
    /// Text-like content, which becomes a user message.
    Text,
    Image,
    Audio,
    FunctionCall,
    CustomToolCall,
    ToolSearchCall,
    FunctionCallOutput,
    CustomToolCallOutput,
    ToolSearchOutput,
    Message,
    Other,
}

/// The kind of a tool call item.
#[derive(Debug, Clone, Copy, PartialEq, Eq, Structural)]
pub enum ToolCallKind {
    Function,
    Custom,
    Search,
}

/// The kind of a message content part.
#[derive(Debug, Clone, Copy, PartialEq, Eq, Structural)]
pub enum ContentPartType {
    InputText,
    OutputText,
    Text,
    Refusal,
    Other,
}

/// The kind of the input items tagged `t`.
pub open spec fn item_kind(t: Seq<char>) -> InputItemKind {
    if t == "reasoning"@ {
        InputItemKind::Reasoning
    } else if t == "input_text"@ || t == "output_text"@ || t == "text"@ || t == "latest_reminder"@ {
        InputItemKind::Text
    } else if t == "input_image"@ {
        InputItemKind::Image
    } else if t == "input_audio"@ {
        InputItemKind::Audio
    } else if t == "function_call"@ {
        InputItemKind::FunctionCall
    } else if t == "custom_tool_call"@ {
        InputItemKind::CustomToolCall
    } else if t == "tool_search_call"@ {
        InputItemKind::ToolSearchCall
    } else if t == "function_call_output"@ {
        InputItemKind::FunctionCallOutput
    } else if t == "custom_tool_call_output"@ {
        InputItemKind::CustomToolCallOutput
    } else if t == "tool_search_output"@ {
        InputItemKind::ToolSearchOutput
    } else if t == "message"@ {
        InputItemKind::Message
    } else {
        InputItemKind::Other
    }
}

/// The kind of the content parts tagged `t`.
pub open spec fn part_type(t: Seq<char>) -> ContentPartType {
    if t == "input_text"@ {
        ContentPartType::InputText
    } else if t == "output_text"@ {
        ContentPartType::OutputText
    } else if t == "text"@ {
        ContentPartType::Text
    } else if t == "refusal"@ {
        ContentPartType::Refusal
    } else {
        ContentPartType::Other
    }
}

impl InputItemKind {
    /// The kind of the items tagged `item_type`.
    pub fn classify(item_type: &str) -> (r: InputItemKind)
        ensures
            r == item_kind(item_type@),
    {
        if same(item_type, "reasoning") {
            InputItemKind::Reasoning
        } else if same(item_type, "input_text") || same(item_type, "output_text") || same(
            item_type,
            "text",
        ) || same(item_type, "latest_reminder") {
            InputItemKind::Text
        } else if same(item_type, "input_image") {
            InputItemKind::Image
        } else if same(item_type, "input_audio") {
            InputItemKind::Audio
        } else if same(item_type, "function_call") {
            InputItemKind::FunctionCall
        } else if same(item_type, "custom_tool_call") {
            InputItemKind::CustomToolCall
        } else if same(item_type, "tool_search_call") {
            InputItemKind::ToolSearchCall
        } else if same(item_type, "function_call_output") {
            InputItemKind::FunctionCallOutput
        } else if same(item_type, "custom_tool_call_output") {
            InputItemKind::CustomToolCallOutput
        } else if same(item_type, "tool_search_output") {
            InputItemKind::ToolSearchOutput
        } else if same(item_type, "message") {
            InputItemKind::Message
        } else {
            InputItemKind::Other
        }
    }

    /// The tool call kind, for the three kinds of items that are tool calls.
    pub open spec fn tool_call(self) -> Option<ToolCallKind> {
        match self {
            InputItemKind::FunctionCall => Some(ToolCallKind::Function),
            InputItemKind::CustomToolCall => Some(ToolCallKind::Custom),
            InputItemKind::ToolSearchCall => Some(ToolCallKind::Search),
            _ => None,
        }
    }

    /// The tool call kind, for the three kinds of items that are tool calls.
    pub fn as_tool_call(self) -> (r: Option<ToolCallKind>)
        ensures
            r == self.tool_call(),
    {
        match self {
            InputItemKind::FunctionCall => Some(ToolCallKind::Function),
            InputItemKind::CustomToolCall => Some(ToolCallKind::Custom),
            InputItemKind::ToolSearchCall => Some(ToolCallKind::Search),
            _ => None,
        }
    }
}

impl ToolCallKind {
    /// The `type` tag of this kind of tool call item.
    pub open spec fn tag(self) -> Seq<char> {
        match self {
            ToolCallKind::Function => "function_call"@,
            ToolCallKind::Custom => "custom_tool_call"@,
            ToolCallKind::Search => "tool_search_call"@,
        }
    }

    /// The `type` tag of this kind of tool call item.
    pub fn as_str(self) -> (r: &'static str)
        ensures
            r@ == self.tag(),
    {
        match self {
            ToolCallKind::Function => "function_call",
            ToolCallKind::Custom => "custom_tool_call",
            ToolCallKind::Search => "tool_search_call",
        }
    }
}

impl ContentPartType {
    /// The kind of the content parts tagged `part_type`.
    pub fn classify(part_type: &str) -> (r: ContentPartType)
        ensures
            r == crate::protocol::part_type(part_type@),
    {
        if same(part_type, "input_text") {
            ContentPartType::InputText
        } else if same(part_type, "output_text") {
            ContentPartType::OutputText
        } else if same(part_type, "text") {
            ContentPartType::Text
        } else if same(part_type, "refusal") {
            ContentPartType::Refusal
        } else {
            ContentPartType::Other
        }
    }

    /// Whether the part carries text.
    pub open spec fn carries_text(self) -> bool {
        self == ContentPartType::InputText || self == ContentPartType::OutputText || self
            == ContentPartType::Text
    }

    /// Whether the part carries text.
    pub fn is_text(self) -> (r: bool)
        ensures
            r == self.carries_text(),
    {
        match self {
            ContentPartType::InputText | ContentPartType::OutputText | ContentPartType::Text => true,
            ContentPartType::Refusal | ContentPartType::Other => false,
        }
    }
}

/// The kind of a tool call is recovered from its tag.
pub proof fn tool_call_kinds_round_trip(kind: ToolCallKind)
    ensures
        item_kind(kind.tag()).tool_call() == Some(kind),
{
    reveal_strlit("reasoning");
    reveal_strlit("input_text");
    reveal_strlit("output_text");
    reveal_strlit("text");
    reveal_strlit("latest_reminder");
    reveal_strlit("input_image");
    reveal_strlit("input_audio");
    reveal_strlit("function_call");
    reveal_strlit("custom_tool_call");
    reveal_strlit("tool_search_call");
    assert("function_call"@.len() == 13 && "custom_tool_call"@.len() == 16
        && "tool_search_call"@.len() == 16);
    assert("custom_tool_call"@[0] == 'c' && "tool_search_call"@[0] == 't');
}

} // verus!
