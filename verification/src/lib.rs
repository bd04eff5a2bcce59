//! Core of a local directory browser: sandboxed path resolution,
//! entry classification, metadata fingerprinting and directory listing.
//!
//! The surrounding HTTP server, CLI and HTML rendering are collaborators
//! that feed plain values into these functions and consume their results.

pub mod classify;
pub mod fingerprint;
pub mod listing;
pub mod resolve;
