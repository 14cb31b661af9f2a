//! A peer-to-peer storage ring: nodes cooperatively hold a fixed set of
//! fixed-size chunks that perpetually circulate around a cyclic forwarding
//! topology. This crate holds the ring's logic — the relay actor's step
//! function, the join/splice protocol, the ring directory, and the boundary
//! validation — each function with a contract that pins down its behaviour.
//! Mailboxes, reply channels and network delivery live outside, handed in
//! and out as plain values and opaque tokens.

pub mod directory;
pub mod handlers;
pub mod laws;
pub mod message;
pub mod relay;
pub mod ring;
