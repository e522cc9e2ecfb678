//! A small multi-user chat room over a length-prefixed message protocol.
//!
//! The crate holds the logic of the chat: how messages are framed on a byte
//! stream, how the room keeps its registry of clients, and what the room does
//! with each message it receives. Reading and writing sockets is left to the
//! program that uses the crate.

pub mod client;
pub mod commands;
pub mod constants;
pub mod framing;
pub mod helpers;
pub mod packet;
pub mod registry;
pub mod server;
pub mod text;
