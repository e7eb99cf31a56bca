//! A real-time multi-room chat backend core: user registry with presence,
//! room directory, message fanout with offline queues, connection-session
//! state machine, credential handling, and a small time-clock feature.
//!
//! The engine holds all state as plain values and is fully specified; the
//! surrounding process (sockets, persistent store, clocks) drives it and
//! performs the deliveries it computes.

pub mod types;
pub mod auth;
pub mod engine;
pub mod chat;
pub mod timing;
pub mod dispatch;
pub mod session;
