//! Adapter layer for a hardened external memory allocator engine.
//!
//! The engine itself (size-class bucketing, quarantine, chunk-header
//! hardening) lives behind a narrow C ABI and is not part of this crate.
//! This crate holds the logic that must be bit-exact for the engine to be
//! used safely from Rust:
//!
//! - [`layout`]: the minimum-alignment rule that every allocation and
//!   deallocation request must pass through before it reaches the engine;
//! - [`chunks`]: accounting over the live-chunk reports that the engine's
//!   enumeration facility hands back;
//! - [`model`]: the live-allocation ledger the adapter protocol maintains,
//!   including the engine's fail-fast classification of invalid frees;
//! - [`options`]: the compile-time option-string builder that encodes
//!   `key = value` pairs into the exact text the engine parses at startup.

pub mod chunks;
pub mod layout;
pub mod model;
pub mod options;

pub use layout::GlobalScudoAllocator;
