//! Building blocks of the `OpenGate` Transfer Protocol.

pub mod arith;
pub mod authentication;
pub mod bytes;
pub mod congestion;
pub mod crypto;
pub mod ecn;
pub mod flow;
pub mod handshake;
pub mod handshake_crypto;
pub mod handshake_state;
pub mod kdf;
pub mod laws;
pub mod manifest;
pub mod merkle;
pub mod multipath;
pub mod protection;
pub mod recovery;
pub mod retry;
pub mod runtime;
pub mod text;
pub mod transcript;
pub mod wire;
