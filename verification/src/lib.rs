//! Core of a Nostr relay: event model and codec, filter evaluation, the
//! append-only event store with replacement and moderation semantics, the
//! broadcast bus and per-connection session rules, a content-addressed blob
//! store, IP ban policy, and the management command dispatch.

pub mod bus;
pub mod codec;
pub mod filestore;
pub mod filter;
pub mod hex;
pub mod ipban;
pub mod management;
pub mod session;
pub mod store;
pub mod table;
pub mod types;
