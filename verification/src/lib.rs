//! Core engine of a peer-to-peer, end-to-end-encrypted private messenger
//! built over a public-key-addressed object store.
//!
//! The library covers key derivation and curve conversion, the signed and
//! doubly-encrypted message envelope, deterministic conversation addressing,
//! conversation merge and verification, the notification sub-protocol, the
//! local session vault, follow-list and profile aggregation, and the
//! session state. Network transport is left to the caller, which hands the
//! library the fetched object bodies as plain values.

pub mod address;
pub mod aead;
pub mod conversation;
pub mod curve;
pub mod encoding;
pub mod entropy;
pub mod envelope;
pub mod errors;
pub mod hashing;
pub mod json;
pub mod keys;
pub mod messaging;
pub mod notify;
pub mod profile;
pub mod session;
pub mod vault;
pub mod wire;
