//! Request middleware for a JSON-RPC style tool-invocation protocol served
//! over HTTP, with server-push notifications on a long-lived stream.
//!
//! - `scan` and `payload`: the top-level fields of a request body, and the
//!   operation its method names; `json_string`: decoding string escapes;
//! - `sessions`: the session registry and its push channels;
//! - `tool_calls`: the tool registry;
//! - `output` and `text`: response envelopes and their event-stream framing;
//! - `middleware`: the dispatcher from request to outcome;
//! - `stream_updates`: the push-stream loop's decisions;
//! - `sql_response`: query rows as JSON.
pub mod json_string;
pub mod middleware;
pub mod output;
pub mod payload;
pub mod scan;
pub mod sessions;
pub mod sql_response;
pub mod stream_updates;
pub mod text;
pub mod tool_calls;
