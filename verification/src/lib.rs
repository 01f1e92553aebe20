//! A verified core for a small event-driven market-data pipeline.
//!
//! Raw price ticks become derived signals (price deltas), and signals become
//! throttled alerts, with unreadable input quarantined to a dead-letter
//! record. Prices are fixed-point integers, percent changes exact rationals,
//! and every message travels in a field-tagged decimal text encoding whose
//! decoder provably inverts the encoder.

use vstd::prelude::*;

pub mod digits;
pub mod message;
pub mod codec;
pub mod symmap;
pub mod aggregator;
pub mod alerting;
pub mod live;
pub mod broker;

verus! {

/// Largest price the pipeline accepts, in fixed-point units.
pub const MAX_PRICE: u64 = 1_000_000_000_000_000;

/// Largest byte length of a variable-length field (symbol, source, rule,
/// dead-letter payload); lengths are encoded as eight decimal digits.
pub const MAX_FIELD: usize = 99_999_999;

} // verus!
