//! Scoring engine for a cross-chain packet-relay competition.
//!
//! The library ingests decoded event envelopes one at a time, classifies
//! packet-relay events, deduplicates them by transaction hash, attributes
//! them to teams through bech32 address resolution, and accumulates
//! per-team counters whose weighted sum is the competition score.

pub mod bech32;
pub mod config;
pub mod engine;
pub mod event;
pub mod laws;
pub mod score;
pub mod text;

pub use score::Score;
