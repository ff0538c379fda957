//! Server-authoritative simulation core for a small multiplayer arena
//! shooter.
//!
//! The library owns the single source of truth of a running match: player
//! and bullet state, collision resolution against a static tile level,
//! fixed-tick physics, the binary wire protocol spoken with clients, and
//! the per-connection handshake and input bookkeeping.  Everything is
//! computed over deterministic fixed-point integers so that a tick is a
//! pure function of the previous state and the inputs applied to it.
//!
//! Networking itself (sockets, threads, the tick timer) lives outside the
//! library; it feeds decoded messages in and writes encoded snapshots out.

#![verifier::loop_isolation(false)]

pub mod fixed;
pub mod vec2;
pub mod geom;
pub mod level;
pub mod state;
pub mod protocol;
pub mod codec;
pub mod session;
pub mod rng;
pub mod laws;
