//! Conversion between Responses and Chat Completions.
pub mod chat_to_responses;
pub mod message_normalization;
pub mod responses_to_chat;
pub mod semantics;
pub mod tool_arguments;
