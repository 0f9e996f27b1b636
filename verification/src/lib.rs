//! A verified real-time fan-out coordinator: a hub that tracks connected
//! client sessions, groups them into rooms, and broadcasts messages among
//! room members, together with the per-connection session logic (frame
//! handling and heartbeat) and the wire codec for the command protocol.
//!
//! All I/O lives outside this crate: the hub and session types are pure
//! state machines that take plain values (frames, commands, clock readings)
//! and return plain values (actions, deliveries). `laws` states what holds
//! of whole command traces.

pub mod codec;
pub mod hub;
pub mod laws;
pub mod session;
