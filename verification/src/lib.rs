//! Server-side session engine for a turn-based multiplayer combat game
//! played over an unreliable datagram transport: connection intake and
//! version handshake, matchmaking, authoritative per-match combat state,
//! turn-protocol enforcement, and ordered broadcast to every observer.
//!
//! The process edge (sockets, polling threads, logging) lives outside this
//! crate; it hands decoded transport events in and carries addressed
//! datagrams out.

pub mod codec;
pub mod engine;
pub mod matchmaker;
pub mod model;
pub mod registry;
pub mod rules;
pub mod server;
