//! An in-memory key-value store that speaks a RESP-like wire protocol.
//!
//! The crate holds the protocol codec, the store engine and the command
//! dispatcher. Everything here is a function from plain values to plain
//! values; sockets and task scheduling live with the caller.

pub mod cmd;
pub mod db;
pub mod decimal;
pub mod reply;
pub mod resp_encoder;
pub mod resp_parser;
pub mod server;
pub mod text;
pub mod wire;
