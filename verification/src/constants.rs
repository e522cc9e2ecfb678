//! Fixed parameters of the protocol and of the room.

use vstd::prelude::*;

verus! {

/// The TCP port on which a room listens and to which clients connect.
pub const PORT: u16 = 42069;

/// Milliseconds the room waits between two rounds of polling its clients.
pub const SERVER_POLL_DELAY_MS: u64 = 200;

/// Milliseconds that a new connection has to say hello.
pub const HELLO_TIMEOUT_MS: u64 = 5_000;

/// Milliseconds between the last message of a room or a client that stops
/// and its end, so that the message can leave.
pub const GRACE_DELAY_MS: u64 = 1_000;

/// The identifier of the host: the first client that joins a room.
pub const HOST_ID: u64 = 0;

} // verus!
