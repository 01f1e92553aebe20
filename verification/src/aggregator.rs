//! The aggregator stage: consumes ticks, keeps the last forwarded price
//! per symbol, and derives one signal per tick. Unreadable input is
//! skipped (acknowledged, no output); the price on file advances only
//! when the derived signal is confirmed published, so a redelivered tick
//! is reprocessed against the old state.

use vstd::prelude::*;
use crate::codec::{decode_tick, spec_enc_tick};
use crate::message::{
    pct_change_of, signal_valid, spec_aggregator_source, tick_valid, aggregator_source, Pct,
    Signal, SignalV, Tick, TickV,
};
use crate::symmap::{own_bytes, SymMap};
use crate::MAX_PRICE;

verus! {

/// Per-symbol aggregation state: symbol to price of the most recently
/// successfully forwarded signal. In-memory only; never persisted.
pub struct AggState {
    map: SymMap<u64>,
}

impl AggState {
    pub closed spec fn spec_get(&self, sym: Seq<u8>) -> Option<u64> {
        self.map.spec_get(sym)
    }

    /// Every price on file is one a valid tick could carry.
    pub open spec fn wf(&self) -> bool {
        forall|sym: Seq<u8>|
            (#[trigger] self.spec_get(sym)) matches Some(p) ==> 1 <= p <= MAX_PRICE
    }

    pub fn new() -> (r: Self)
        ensures
            r.wf(),
            forall|sym: Seq<u8>| r.spec_get(sym) is None,
    {
        AggState { map: SymMap::new() }
    }

    pub fn last_price(&self, symbol: &[u8]) -> (r: Option<u64>)
        ensures
            r == self.spec_get(symbol@),
    {
        self.map.get(symbol)
    }
}

/// The signal derived from tick `t` against previous price `prev`: all
/// tick fields carried over, the change present exactly when a previous
/// price exists, and then equal to `(price - prev) / prev * 100`.
pub open spec fn spec_make_signal(t: TickV, prev: Option<u64>) -> SignalV {
    SignalV {
        event_id: t.event_id,
        symbol: t.symbol,
        price: t.price,
        prev_price: prev,
        pct_change: match prev {
            Some(p) => Some(pct_change_of(t.price, p)),
            None => None,
        },
        ts: t.ts,
        source: spec_aggregator_source(),
    }
}

/// Derives the signal for one tick from the current state. Pure: the
/// state advances separately, on confirmed delivery (`agg_commit`).
pub fn make_signal(tick: &Tick, st: &AggState) -> (s: Signal)
    requires
        tick_valid(tick@),
        st.wf(),
    ensures
        s@ == spec_make_signal(tick@, st.spec_get(tick@.symbol)),
        signal_valid(s@),
{
    let prev = st.last_price(tick.symbol.as_slice());
    let (prev_price, pct_change) = match prev {
        Some(p) => {
            let diff: i64 = (tick.price as i64) - (p as i64);
            let num: i64 = 100 * diff;
            (Some(p), Some(Pct { num, den: p }))
        },
        None => (None, None),
    };
    Signal {
        event_id: tick.event_id,
        symbol: own_bytes(tick.symbol.as_slice()),
        price: tick.price,
        prev_price,
        pct_change,
        ts: tick.ts,
        source: aggregator_source(),
    }
}

pub enum AggAction {
    /// Unreadable input: acknowledge and move on, no output, no retry.
    Skip,
    /// A decoded tick: publish this signal, acknowledge only once confirmed.
    Forward(Signal),
}

/// One receive cycle of the aggregator, up to the publish decision:
/// decode the payload; skip what no valid tick encodes; otherwise derive
/// exactly one signal.
pub fn agg_step(payload: &[u8], st: &AggState) -> (r: AggAction)
    requires
        st.wf(),
    ensures
        forall|t: TickV|
            tick_valid(t) && payload@ == #[trigger] spec_enc_tick(t) ==> (r matches AggAction::Forward(s)
                && s@ == spec_make_signal(t, st.spec_get(t.symbol))),
        r matches AggAction::Forward(s) ==> signal_valid(s@) && (exists|t: TickV|
            tick_valid(t) && payload@ == #[trigger] spec_enc_tick(t) && s@ == spec_make_signal(
                t,
                st.spec_get(t.symbol),
            )),
        r is Skip ==> forall|t: TickV| !(tick_valid(t) && payload@ == #[trigger] spec_enc_tick(t)),
{
    match decode_tick(payload) {
        None => AggAction::Skip,
        Some(tick) => {
            let s = make_signal(&tick, st);
            proof {
                assert(tick_valid(tick@) && payload@ == spec_enc_tick(tick@) && s@
                    == spec_make_signal(tick@, st.spec_get(tick@.symbol)));
            }
            AggAction::Forward(s)
        },
    }
}

/// The publish outcome applied to the state: only a confirmed publish
/// advances the price on file and acknowledges the input; a failed or
/// timed-out publish leaves the state untouched so the redelivered tick
/// is retried from scratch.
pub fn agg_commit(st: &mut AggState, sig: &Signal, publish_ok: bool) -> (ack: bool)
    requires
        old(st).wf(),
        signal_valid(sig@),
    ensures
        ack == publish_ok,
        final(st).wf(),
        publish_ok ==> final(st).spec_get(sig@.symbol) == Some(sig@.price),
        publish_ok ==> forall|sym: Seq<u8>|
            sym != sig@.symbol ==> final(st).spec_get(sym) == old(st).spec_get(sym),
        !publish_ok ==> *final(st) == *old(st),
{
    if publish_ok {
        st.map.put(&sig.symbol, sig.price);
        proof {
            assert(st.spec_get(sig@.symbol) == Some(sig@.price));
            assert forall|sym: Seq<u8>| sym != sig@.symbol implies #[trigger] st.spec_get(sym)
                == old(st).spec_get(sym) by {}
            assert(st.wf());
        }
        true
    } else {
        false
    }
}

/// The signals of an uninterrupted single-symbol run: each tick is
/// processed and its signal confirmed before the next arrives, starting
/// from previous price `prev0`.
pub open spec fn spec_signal_chain(prev0: Option<u64>, ticks: Seq<TickV>) -> Seq<SignalV>
    decreases ticks.len(),
{
    if ticks.len() == 0 {
        Seq::empty()
    } else {
        seq![spec_make_signal(ticks[0], prev0)] + spec_signal_chain(
            Some(ticks[0].price),
            ticks.drop_first(),
        )
    }
}

/// In a single-symbol run, the first signal carries the starting state
/// and the n-th signal's previous price is the (n-1)-th tick's price; for
/// a symbol never seen before, the first signal has no previous price and
/// hence no percent change.
pub proof fn lemma_signal_chain_prev(prev0: Option<u64>, ticks: Seq<TickV>, n: int)
    requires
        0 <= n < ticks.len(),
    ensures
        spec_signal_chain(prev0, ticks).len() == ticks.len(),
        spec_signal_chain(prev0, ticks)[n] == spec_make_signal(
            ticks[n],
            if n == 0 {
                prev0
            } else {
                Some(ticks[n - 1].price)
            },
        ),
        n == 0 && prev0 is None ==> spec_signal_chain(prev0, ticks)[0].prev_price is None
            && spec_signal_chain(prev0, ticks)[0].pct_change is None,
        n >= 1 ==> spec_signal_chain(prev0, ticks)[n].prev_price == Some(ticks[n - 1].price),
    decreases ticks.len(),
{
    lemma_signal_chain_len(prev0, ticks);
    if n > 0 {
        lemma_signal_chain_prev(Some(ticks[0].price), ticks.drop_first(), n - 1);
        assert(ticks.drop_first()[n - 1] == ticks[n]);
        if n >= 2 {
            assert(ticks.drop_first()[n - 2] == ticks[n - 1]);
        }
    }
}

pub proof fn lemma_signal_chain_len(prev0: Option<u64>, ticks: Seq<TickV>)
    ensures
        spec_signal_chain(prev0, ticks).len() == ticks.len(),
    decreases ticks.len(),
{
    if ticks.len() > 0 {
        lemma_signal_chain_len(Some(ticks[0].price), ticks.drop_first());
    }
}

/// The percent change of a derived signal is present exactly when a
/// previous price exists, and is then computed as
/// `(price - previous_price) / previous_price * 100`, held as the exact
/// rational `100 * (price - previous_price)` over `previous_price`.
pub proof fn lemma_pct_change_rule(t: TickV, prev: Option<u64>)
    ensures
        (spec_make_signal(t, prev).pct_change is Some) <==> (prev is Some),
        spec_make_signal(t, prev).prev_price == prev,
        prev matches Some(p) ==> spec_make_signal(t, prev).pct_change == Some(
            Pct { num: (100 * (t.price as int - p as int)) as i64, den: p },
        ),
{
}

} // verus!
