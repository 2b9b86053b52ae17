//! A minimal text-chat relay library.
//!
//! A server accepts HTTP-style requests, appends chat messages with a
//! timestamp to an append-only log, and serves the accumulated log back as
//! JSON; a client sends the local user's messages and polls for the full
//! log, redrawing when it changes.

pub mod fmtnum;
pub mod http;
pub mod json;
pub mod server;
pub mod client;
pub mod timestamp;
pub mod laws;
