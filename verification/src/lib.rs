//! Verified core of a peer-to-peer topic synchronization protocol.
//!
//! Nodes join a named topic over a gossip broadcast mesh, exchange chat
//! messages, and replicate the files each member has shared.  This crate
//! holds the protocol logic itself: the invite ticket codec, the message
//! envelope model, the record store model with its uniqueness invariants,
//! the periodic check-in scheduler, the watermark-based catch-up engine,
//! the inbound dispatcher, and the subscription lifecycle rules.  The
//! surrounding process (network transport, persistence, timers, UI) drives
//! these functions and performs the I/O they decide on.

pub mod ascii;
pub mod clock;
pub mod compose;
pub mod dispatch;
pub mod errors;
pub mod hex;
pub mod lifecycle;
pub mod model;
pub mod records;
pub mod scheduler;
pub mod secrets;
pub mod store;
pub mod sync_map;
pub mod ticket;
