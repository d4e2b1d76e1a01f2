//! Core of a room-based multiplayer buzzer game server.
//!
//! A room holds one game: a host steers the flow, players race to buzz in on
//! questions and are scored. Everything that decides or mutates game state
//! lives here and is verified; the network edge (websockets, JSON, channels,
//! clocks) stays outside and hands this library plain values.

pub mod connection;
pub mod game;
pub mod handlers;
pub mod host;
pub mod laws;
pub mod messages;
pub mod player;
pub mod registry;
pub mod room;

use vstd::prelude::*;

verus! {

/// Identifier of an in-flight heartbeat probe.
pub type HeartbeatId = u32;

/// Milliseconds since the Unix epoch, or a difference of two such times.
pub type UnixMs = u64;

} // verus!
