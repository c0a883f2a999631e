//! Core of a client for a minimal text-oriented internet protocol.
//!
//! The library classifies two-digit response headers, parses successful text
//! bodies into a structured line-oriented document, and pins server
//! certificates on first use, flagging any later fingerprint mismatch as a
//! conflict.  All transport, persistence and rendering stay outside; the
//! library works on plain values and carries a proved contract on every
//! public operation.

pub mod client;
pub mod error;
pub mod event;
pub mod gemini;
pub mod header;
pub mod response;
pub mod serialize;
pub mod session;
pub mod settings;
pub mod store;
pub mod text;
pub mod urls;
pub mod verification;
