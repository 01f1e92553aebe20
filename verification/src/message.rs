//! The three message shapes of the pipeline, and the dead-letter envelope.
//!
//! Prices are fixed-point integers (a tick source chooses the scale; the
//! pipeline never rescales), timestamps are milliseconds, identifiers are
//! 128-bit values, and text fields are byte strings. A percent change is
//! kept as the exact rational `num / den` so that threshold comparisons
//! are decided without rounding.

use vstd::prelude::*;
use crate::{MAX_FIELD, MAX_PRICE};

verus! {

/// An exact percentage: the value `num / den`, in percent.
#[derive(Clone, Copy, PartialEq, Eq, Structural, Debug)]
pub struct Pct {
    pub num: i64,
    pub den: u64,
}

/// A single price observation, assigned at ingress.
#[derive(Clone, Debug, PartialEq)]
pub struct Tick {
    pub event_id: u128,
    pub symbol: Vec<u8>,
    pub price: u64,
    pub volume: i64,
    pub ts: i64,
    pub source: Vec<u8>,
}

/// A derived observation: one per consumed tick, carrying the change
/// against the previous price seen for the same symbol.
#[derive(Clone, Debug, PartialEq)]
pub struct Signal {
    pub event_id: u128,
    pub symbol: Vec<u8>,
    pub price: u64,
    pub prev_price: Option<u64>,
    pub pct_change: Option<Pct>,
    pub ts: i64,
    pub source: Vec<u8>,
}

/// A threshold-breaching move, after throttling.
#[derive(Clone, Debug, PartialEq)]
pub struct Alert {
    pub alert_id: u128,
    pub event_id: u128,
    pub symbol: Vec<u8>,
    pub rule: Vec<u8>,
    pub pct_change: Pct,
    pub price: u64,
    pub ts: i64,
    pub source: Vec<u8>,
}

/// Diagnostic envelope for input the alerting stage could not read.
#[derive(Clone, Debug, PartialEq)]
pub struct DeadLetter {
    pub from_stream: Vec<u8>,
    pub payload: Vec<u8>,
    pub captured_at: i64,
}

pub struct TickV {
    pub event_id: u128,
    pub symbol: Seq<u8>,
    pub price: u64,
    pub volume: i64,
    pub ts: i64,
    pub source: Seq<u8>,
}

pub struct SignalV {
    pub event_id: u128,
    pub symbol: Seq<u8>,
    pub price: u64,
    pub prev_price: Option<u64>,
    pub pct_change: Option<Pct>,
    pub ts: i64,
    pub source: Seq<u8>,
}

pub struct AlertV {
    pub alert_id: u128,
    pub event_id: u128,
    pub symbol: Seq<u8>,
    pub rule: Seq<u8>,
    pub pct_change: Pct,
    pub price: u64,
    pub ts: i64,
    pub source: Seq<u8>,
}

pub struct DeadLetterV {
    pub from_stream: Seq<u8>,
    pub payload: Seq<u8>,
    pub captured_at: i64,
}

impl View for Tick {
    type V = TickV;

    open spec fn view(&self) -> TickV {
        TickV {
            event_id: self.event_id,
            symbol: self.symbol@,
            price: self.price,
            volume: self.volume,
            ts: self.ts,
            source: self.source@,
        }
    }
}

impl View for Signal {
    type V = SignalV;

    open spec fn view(&self) -> SignalV {
        SignalV {
            event_id: self.event_id,
            symbol: self.symbol@,
            price: self.price,
            prev_price: self.prev_price,
            pct_change: self.pct_change,
            ts: self.ts,
            source: self.source@,
        }
    }
}

impl View for Alert {
    type V = AlertV;

    open spec fn view(&self) -> AlertV {
        AlertV {
            alert_id: self.alert_id,
            event_id: self.event_id,
            symbol: self.symbol@,
            rule: self.rule@,
            pct_change: self.pct_change,
            price: self.price,
            ts: self.ts,
            source: self.source@,
        }
    }
}

impl View for DeadLetter {
    type V = DeadLetterV;

    open spec fn view(&self) -> DeadLetterV {
        DeadLetterV {
            from_stream: self.from_stream@,
            payload: self.payload@,
            captured_at: self.captured_at,
        }
    }
}

/// The percent change from `prev` to `price`:
/// `(price - prev) / prev * 100`, as the exact rational
/// `100 * (price - prev) / prev`.
pub open spec fn pct_change_of(price: u64, prev: u64) -> Pct {
    Pct { num: (100 * (price as int - prev as int)) as i64, den: prev }
}

pub open spec fn tick_valid(t: TickV) -> bool {
    &&& 1 <= t.price <= MAX_PRICE
    &&& t.symbol.len() <= MAX_FIELD
    &&& t.source.len() <= MAX_FIELD
}

pub open spec fn signal_valid(s: SignalV) -> bool {
    &&& 1 <= s.price <= MAX_PRICE
    &&& s.symbol.len() <= MAX_FIELD
    &&& s.source.len() <= MAX_FIELD
    &&& match (s.prev_price, s.pct_change) {
        (Some(p), Some(c)) => 1 <= p <= MAX_PRICE && c == pct_change_of(s.price, p),
        (None, None) => true,
        _ => false,
    }
}

pub open spec fn alert_valid(a: AlertV) -> bool {
    &&& 1 <= a.price <= MAX_PRICE
    &&& a.symbol.len() <= MAX_FIELD
    &&& a.rule.len() <= MAX_FIELD
    &&& a.source.len() <= MAX_FIELD
    &&& 1 <= a.pct_change.den <= MAX_PRICE
    &&& -100 * (MAX_PRICE as int) <= a.pct_change.num <= 100 * (MAX_PRICE as int)
}

pub open spec fn dead_letter_valid(d: DeadLetterV) -> bool {
    &&& d.from_stream.len() <= MAX_FIELD
    &&& d.payload.len() <= MAX_FIELD
}

/// The constant source tag of the aggregator stage: `aggregator`.
pub open spec fn spec_aggregator_source() -> Seq<u8> {
    seq![97u8, 103u8, 103u8, 114u8, 101u8, 103u8, 97u8, 116u8, 111u8, 114u8]
}

/// The constant source tag of the alerting stage: `alert-service`.
pub open spec fn spec_alerting_source() -> Seq<u8> {
    seq![97u8, 108u8, 101u8, 114u8, 116u8, 45u8, 115u8, 101u8, 114u8, 118u8, 105u8, 99u8, 101u8]
}

pub fn aggregator_source() -> (v: Vec<u8>)
    ensures
        v@ == spec_aggregator_source(),
{
    let mut v: Vec<u8> = Vec::new();
    v.push(97u8);
    v.push(103u8);
    v.push(103u8);
    v.push(114u8);
    v.push(101u8);
    v.push(103u8);
    v.push(97u8);
    v.push(116u8);
    v.push(111u8);
    v.push(114u8);
    proof {
        assert(v@ =~= spec_aggregator_source());
    }
    v
}

pub fn alerting_source() -> (v: Vec<u8>)
    ensures
        v@ == spec_alerting_source(),
{
    let mut v: Vec<u8> = Vec::new();
    v.push(97u8);
    v.push(108u8);
    v.push(101u8);
    v.push(114u8);
    v.push(116u8);
    v.push(45u8);
    v.push(115u8);
    v.push(101u8);
    v.push(114u8);
    v.push(118u8);
    v.push(105u8);
    v.push(99u8);
    v.push(101u8);
    proof {
        assert(v@ =~= spec_alerting_source());
    }
    v
}

} // verus!
