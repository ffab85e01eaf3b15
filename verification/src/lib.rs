//! Session/transport/protocol core of a small real-time multiplayer server.
//!
//! The library owns the verified logic: the binary codec for the control and
//! state channels, the fixed-capacity session table, the per-tick dispatch of
//! inbound messages, the chat-command dispatcher with its permission model,
//! and the state-channel broadcast aggregation. All socket, file and clock
//! work stays outside; callers hand in plain values and get plain values back.

pub mod config;
pub mod protocol;
pub mod server;
pub mod session;
pub mod state;
pub mod text;
pub mod web;

use vstd::prelude::*;

verus! {

} // verus!
