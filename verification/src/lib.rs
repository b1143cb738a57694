//! A bridge between the Responses protocol and Chat Completions.
//!
//! A client that speaks Responses sends a request; [`service`] converts it to a Chat
//! Completions request, and what upstream answers back to a response, whole or as a
//! stream of events. The modules below hold the conversions, the state of a stream,
//! and the rules around them.
pub mod compat;
pub mod config;
pub mod context;
pub mod convert;
pub mod decoder;
pub mod error;
pub mod id_gen;
pub mod json;
pub mod laws;
pub mod media;
pub mod metrics;
pub mod middleware;
pub mod protocol;
pub mod reasoning;
pub mod reasoning_cache;
pub mod sanitize;
pub mod service;
pub mod session_bridge;
pub mod session_store;
pub mod sha256;
pub mod sse;
pub mod stream_chat_to_responses;
pub mod stream_envelope;
pub mod stream_events;
pub mod stream_inline_think;
pub mod stream_message;
pub mod stream_reasoning;
pub mod stream_responses_state;
pub mod stream_tools;
pub mod text;
pub mod transform_loss;
pub mod types;
pub mod upstream;
pub mod utf8;
