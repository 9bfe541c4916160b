//! Authoritative client-server synchronization core for a small real-time
//! multiplayer session.
//!
//! The library decides what each participant knows about every other
//! participant's position, and when:
//!
//! - a wire-level command protocol ([`InitCommand`] from server to client,
//!   [`PlayerCommand`] from client to server) with a verified binary codec;
//! - a per-connection registry ([`Lobby`]) mapping a network identity to the
//!   local handle of that participant's simulated entity;
//! - the server authority (`server::ServerWorld`): it drains movement intents,
//!   sanitizes them into unit direction vectors, integrates motion once per
//!   tick, and builds the full position snapshot broadcast every tick;
//! - the client reconciler (`client::ClientWorld`): it materializes entities
//!   announced over the reliable channel and overwrites positions of known
//!   entities from snapshots received over the lossy channel.
//!
//! All geometry uses millifixed scalars: an `i64` counts thousandths of a
//! world unit, so `1000` is one unit.  Raw movement intents arrive as IEEE 754
//! single-precision bit patterns (`u32`); decoding and sanitizing them is
//! integer logic and verified here (`motion`).  Transport, rendering and input
//! polling stay outside this crate.

use vstd::prelude::*;

pub mod codec;
pub mod motion;
pub mod lobby;
pub mod server;
pub mod client;

verus! {

/// Magic number that must match between client and server; the transport
/// handshake (outside this core) rejects sessions that disagree on it.
pub const PROTOCOL_ID: u64 = 1000;

/// The network identity this process connected under.
#[derive(Clone, Copy, PartialEq, Eq, Structural, Debug)]
pub struct CurrentClientId(pub u64);

/// A position in millifixed world coordinates: `x == 1000` is one world unit
/// along the x axis.
#[derive(Clone, Copy, PartialEq, Eq, Structural, Debug)]
pub struct Vec3Milli {
    pub x: i64,
    pub y: i64,
    pub z: i64,
}

/// A planar direction in millifixed coordinates; a sanitized movement
/// direction is either zero or (approximately) unit length, so each
/// component lies in `-1000 ..= 1000`.
#[derive(Clone, Copy, PartialEq, Eq, Structural, Debug)]
pub struct Vec2Milli {
    pub x: i64,
    pub y: i64,
}

/// A raw movement intent as produced by input hardware: three IEEE 754
/// single-precision bit patterns.  Nothing is assumed of it — components may
/// be zero, huge, infinite or NaN; sanitization happens on the server.
#[derive(Clone, Copy, PartialEq, Eq, Structural, Debug)]
pub struct Vec3Bits {
    pub x: u32,
    pub y: u32,
    pub z: u32,
}

/// Connection-lifecycle message, sent server to client over the
/// ordered-reliable channel.
#[derive(Clone, Copy, PartialEq, Eq, Structural, Debug)]
pub enum InitCommand {
    /// Announces exactly one participant's existence and starting position.
    PlayerConnected { client_id: u64, position: Vec3Milli },
    /// Announces that a participant has left, so clients can despawn its
    /// entity instead of keeping a stale handle.
    PlayerDisconnected { client_id: u64 },
}

/// Movement intent, sent client to server over the ordered-reliable channel.
#[derive(Clone, Copy, PartialEq, Eq, Structural, Debug)]
pub enum PlayerCommand {
    /// A raw, not-necessarily-normalized direction; degenerate vectors mean
    /// "stop".
    PlayerMove { direction: Vec3Bits },
}

pub open spec fn origin() -> Vec3Milli {
    Vec3Milli { x: 0, y: 0, z: 0 }
}

pub open spec fn zero_direction() -> Vec2Milli {
    Vec2Milli { x: 0, y: 0 }
}

} // verus!
