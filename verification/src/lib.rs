//! Peer maintenance for a network node: which peers to keep, drop, dial and tell of each other.

pub mod addr;
pub mod book_laws;
pub mod config;
pub mod connection_laws;
pub mod effect;
pub mod encoding;
pub mod error;
pub mod exchange;
pub mod exchange_laws;
pub mod handshake;
pub mod laws;
pub mod message;
pub mod node;
pub mod peer_book;
pub mod random;
pub mod recency;
pub mod storage;
pub mod time;
pub mod update;
pub mod update_laws;
