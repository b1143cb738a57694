//! What the bridge promises as a whole, stated over what goes in and what comes out.
pub mod answers;
pub mod bodies;
pub mod kept;
pub mod memories;
pub mod messages;
pub mod namespaces;
pub mod request_lists;
pub mod requests;
pub mod retries;
pub mod routes;
pub mod sessions;
pub mod stream_calls;
pub mod stream_items;
pub mod streams;
pub mod thoughts;
pub mod tools;
pub mod turns;
