//! Core of a multi-user chat system: the framed message codec, the server's
//! per-connection state machine over its shared registries, the rate limiter
//! and heartbeat rules, and the client's session logic.

pub mod bytes;
pub mod message;
pub mod frame;
pub mod names;
pub mod rate_limit;
pub mod heartbeat;
pub mod server;
pub mod version;
pub mod handler;
pub mod text;
pub mod commands;
pub mod client_commands;
pub mod server_commands;
pub mod client_input;
pub mod client;
pub mod server_input;
pub mod completer;
