//! An item fetcher for a blockchain node.
//!
//! The fetcher resolves requests of the form "give me item X" from local
//! storage or, failing that, from a nominated remote peer, while coalescing
//! concurrent requests for the same item and enforcing per-peer timeouts.
//! Handlers are pure state transitions: each consumes one event and returns a
//! list of effect descriptors (storage queries, outbound messages, timers,
//! responder deliveries) for the surrounding reactor to perform.

pub mod effect;
pub mod error;
pub mod event;
pub mod fetcher;
pub mod laws;
pub mod protocol;
pub mod providers;
pub mod table;
pub mod types;
pub mod utils;
