//! Oblivion: an end-to-end encrypted application-layer protocol library.
//!
//! Two peers establish an ephemeral X25519 session over a byte stream,
//! derive a 16-byte AES-128-GCM session key via HKDF-SHA-256, and then
//! exchange length-framed encrypted messages in a full-duplex conversation.
//! On the server side, a URL-like *entrance* in the opening request selects
//! a handler through a pluggable route table.
//!
//! This crate holds the verified core: framing, key-exchange packets,
//! encrypted datagrams, the request/endpoint parsers, the router and the
//! session state machine. Socket I/O and the async drivers live outside.

pub mod exceptions;
pub mod models;
pub mod utils;
