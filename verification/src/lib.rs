//! SwapBytes: the verified core of a serverless peer-to-peer chat
//! application.
//!
//! Peers discover each other on a local network, exchange public room
//! messages over a publish/subscribe overlay, resolve nicknames through a
//! distributed hash table, and negotiate ephemeral private one-to-one
//! sessions (direct messages and file transfer).
//!
//! This crate holds the session state, the room registry, the nickname
//! resolver with its pending-query correlation table, and the
//! private-session state machine. The overlay transport itself (peer
//! discovery, publish/subscribe, DHT routing, request/response delivery)
//! is an external collaborator: the engine functions here take the events
//! it produces as plain values and return the actions it must perform.

pub mod cursor;
pub mod protocol;
pub mod state;
pub mod codec;
pub mod engine;
pub mod laws;
