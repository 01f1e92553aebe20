//! The alerting stage: consumes signals, fires an alert when the percent
//! change breaches a configured threshold, throttles alerts per symbol by
//! a cool-down on processing time, and quarantines unreadable input to a
//! dead-letter record. The throttle advances only on confirmed delivery
//! of the alert, so a failed publish never suppresses a later retry.

use vstd::prelude::*;
use crate::codec::{decode_signal, spec_enc_signal};
use crate::digits::{lemma_pow10_consts, lemma_render_len, render_dec, spec_render};
use crate::message::{
    alert_valid, alerting_source, dead_letter_valid, signal_valid, spec_alerting_source, Alert,
    AlertV, DeadLetter, DeadLetterV, Pct, Signal, SignalV,
};
use crate::symmap::{own_bytes, SymMap};
use crate::{MAX_FIELD, MAX_PRICE};

verus! {

/// Per-symbol throttle state: symbol to the time (milliseconds) of the
/// last alert whose delivery was confirmed. In-memory only.
pub struct ThrottleState {
    map: SymMap<i64>,
}

impl ThrottleState {
    pub closed spec fn spec_get(&self, sym: Seq<u8>) -> Option<i64> {
        self.map.spec_get(sym)
    }

    pub fn new() -> (r: Self)
        ensures
            forall|sym: Seq<u8>| r.spec_get(sym) is None,
    {
        ThrottleState { map: SymMap::new() }
    }

    pub fn last_alert_at(&self, symbol: &[u8]) -> (r: Option<i64>)
        ensures
            r == self.spec_get(symbol@),
    {
        self.map.get(symbol)
    }
}

/// Runtime-configurable parameters of the stage: the threshold as an
/// exact percentage `threshold_num / threshold_den`, and the cool-down
/// in milliseconds.
pub struct AlertConfig {
    pub threshold_num: u64,
    pub threshold_den: u64,
    pub cooldown_ms: i64,
}

impl AlertConfig {
    pub open spec fn wf(&self) -> bool {
        1 <= self.threshold_den && 0 <= self.cooldown_ms
    }
}

/// The defaults when nothing is configured: 0.20 percent, ten seconds.
impl Default for AlertConfig {
    fn default() -> (r: Self)
        ensures
            r == (AlertConfig { threshold_num: 1, threshold_den: 5, cooldown_ms: 10_000 }),
            r.wf(),
    {
        AlertConfig { threshold_num: 1, threshold_den: 5, cooldown_ms: 10_000 }
    }
}

pub open spec fn abs_int(n: int) -> int {
    if n < 0 {
        -n
    } else {
        n
    }
}

/// `abs(pct) >= threshold`, decided exactly on the rationals:
/// `|num| / den >= tn / td` with positive denominators.
pub open spec fn spec_breaches(c: Pct, tn: u64, td: u64) -> bool {
    abs_int(c.num as int) * (td as int) >= (tn as int) * (c.den as int)
}

/// The cool-down is still running for `sym` at processing time `now`.
pub open spec fn spec_throttled(th: ThrottleState, sym: Seq<u8>, now: i64, cooldown_ms: i64) -> bool {
    match th.spec_get(sym) {
        Some(last) => now - last < cooldown_ms,
        None => false,
    }
}

/// A signal alerts exactly when it carries a change, the
/// change breaches the threshold, and the symbol is not throttled.
pub open spec fn spec_should_alert(s: SignalV, th: ThrottleState, cfg: AlertConfig, now: i64) -> bool {
    match s.pct_change {
        None => false,
        Some(c) => spec_breaches(c, cfg.threshold_num, cfg.threshold_den) && !spec_throttled(
            th,
            s.symbol,
            now,
            cfg.cooldown_ms,
        ),
    }
}

/// The rule text `abs(percent_change) >= <threshold>%`, with the
/// threshold written as `num` or `num/den`.
pub open spec fn spec_rule_text(tn: u64, td: u64) -> Seq<u8> {
    spec_rule_prefix() + spec_render(tn as nat) + (if td == 1 {
        Seq::<u8>::empty()
    } else {
        seq![47u8] + spec_render(td as nat)
    }) + seq![37u8]
}

/// The bytes of `abs(percent_change) >= `.
pub open spec fn spec_rule_prefix() -> Seq<u8> {
    seq![
        97u8, 98u8, 115u8, 40u8, 112u8, 101u8, 114u8, 99u8, 101u8, 110u8, 116u8, 95u8, 99u8,
        104u8, 97u8, 110u8, 103u8, 101u8, 41u8, 32u8, 62u8, 61u8, 32u8,
    ]
}

pub fn rule_text(tn: u64, td: u64) -> (r: Vec<u8>)
    ensures
        r@ == spec_rule_text(tn, td),
        r@.len() <= MAX_FIELD,
{
    proof {
        lemma_pow10_consts();
        lemma_render_len(tn as nat, 20);
        lemma_render_len(td as nat, 20);
    }
    let mut r: Vec<u8> = Vec::new();
    r.push(97u8);  // a
    r.push(98u8);  // b
    r.push(115u8);  // s
    r.push(40u8);  // (
    r.push(112u8);  // p
    r.push(101u8);  // e
    r.push(114u8);  // r
    r.push(99u8);  // c
    r.push(101u8);  // e
    r.push(110u8);  // n
    r.push(116u8);  // t
    r.push(95u8);  // _
    r.push(99u8);  // c
    r.push(104u8);  // h
    r.push(97u8);  // a
    r.push(110u8);  // n
    r.push(103u8);  // g
    r.push(101u8);  // e
    r.push(41u8);  // )
    r.push(32u8);  // space
    r.push(62u8);  // >
    r.push(61u8);  // =
    r.push(32u8);  // space
    proof {
        assert(r@ =~= spec_rule_prefix());
    }
    let mut num = render_dec(tn);
    r.append(&mut num);
    if td != 1 {
        r.push(47u8);  // /
        let mut den = render_dec(td);
        r.append(&mut den);
    }
    r.push(37u8);  // %
    proof {
        assert(r@ =~= spec_rule_text(tn, td));
    }
    r
}

/// The alert raised for signal `s` under configuration `cfg`, carrying a
/// fresh identifier. Only signals with a percent change alert.
pub open spec fn spec_alert_of(s: SignalV, cfg: AlertConfig, alert_id: u128) -> AlertV {
    AlertV {
        alert_id,
        event_id: s.event_id,
        symbol: s.symbol,
        rule: spec_rule_text(cfg.threshold_num, cfg.threshold_den),
        pct_change: s.pct_change->0,
        price: s.price,
        ts: s.ts,
        source: spec_alerting_source(),
    }
}

pub enum AlertOutcome {
    /// The payload decodes as no valid signal: route this record to the
    /// dead-letter stream, then acknowledge; never retry.
    Unreadable(DeadLetter),
    /// Consumed with no output: first observation, below threshold, or
    /// throttled. Acknowledge.
    NoAlert,
    /// Publish this alert; acknowledge and advance the throttle only on
    /// confirmed delivery (`alert_commit`).
    Raise(Alert),
}

/// Decides what the alerting stage does with one inbound payload,
/// against the current throttle state, at processing time `now`, with a
/// caller-supplied fresh alert identifier.
///
/// The payload cap is the dead-letter envelope's field bound. A valid
/// signal whose symbol and source lengths together approach that bound
/// encodes to a payload above it; such a payload cannot be taken here
/// and the shell truncates it before dead-lettering.
pub fn evaluate(
    payload: &[u8],
    from_stream: &[u8],
    th: &ThrottleState,
    cfg: &AlertConfig,
    now: i64,
    alert_id: u128,
) -> (r: AlertOutcome)
    requires
        cfg.wf(),
        from_stream@.len() <= MAX_FIELD,
        payload@.len() <= MAX_FIELD,
    ensures
        (r is Unreadable <==> (forall|s: SignalV|
            !(signal_valid(s) && payload@ == #[trigger] spec_enc_signal(s)))),
        (r matches AlertOutcome::Unreadable(d) ==> d@ == (DeadLetterV {
            from_stream: from_stream@,
            payload: payload@,
            captured_at: now,
        }) && dead_letter_valid(d@)),
        forall|s: SignalV|
            signal_valid(s) && payload@ == #[trigger] spec_enc_signal(s) ==> (if spec_should_alert(
                s,
                *th,
                *cfg,
                now,
            ) {
                r matches AlertOutcome::Raise(a) && a@ == spec_alert_of(s, *cfg, alert_id)
            } else {
                r is NoAlert
            }),
        r matches AlertOutcome::Raise(a) ==> alert_valid(a@) && (exists|s: SignalV|
            signal_valid(s) && payload@ == #[trigger] spec_enc_signal(s) && spec_should_alert(
                s,
                *th,
                *cfg,
                now,
            ) && a@ == spec_alert_of(s, *cfg, alert_id)),
{
    match decode_signal(payload) {
        None => AlertOutcome::Unreadable(
            DeadLetter {
                from_stream: own_bytes(from_stream),
                payload: own_bytes(payload),
                captured_at: now,
            },
        ),
        Some(sig) => {
            match sig.pct_change {
                None => AlertOutcome::NoAlert,
                Some(c) => {
                    let mag: i128 = if c.num < 0 {
                        -(c.num as i128)
                    } else {
                        c.num as i128
                    };
                    proof {
                        assert(0 <= mag <= 100_000_000_000_000_000i128);
                        assert(mag * (cfg.threshold_den as i128) <= 100_000_000_000_000_000i128
                            * 0xFFFF_FFFF_FFFF_FFFFi128) by (nonlinear_arith)
                            requires
                                0 <= mag <= 100_000_000_000_000_000i128,
                                0 <= (cfg.threshold_den as i128) <= 0xFFFF_FFFF_FFFF_FFFFi128,
                        ;
                        assert((cfg.threshold_num as i128) * (c.den as i128)
                            <= 0xFFFF_FFFF_FFFF_FFFFi128 * 1_000_000_000_000_000i128)
                            by (nonlinear_arith)
                            requires
                                0 <= (cfg.threshold_num as i128) <= 0xFFFF_FFFF_FFFF_FFFFi128,
                                0 <= (c.den as i128) <= 1_000_000_000_000_000i128,
                        ;
                    }
                    if mag * (cfg.threshold_den as i128) < (cfg.threshold_num as i128) * (
                    c.den as i128) {
                        return AlertOutcome::NoAlert;
                    }
                    match th.last_alert_at(sig.symbol.as_slice()) {
                        Some(last) => {
                            if (now as i128) - (last as i128) < (cfg.cooldown_ms as i128) {
                                return AlertOutcome::NoAlert;
                            }
                        },
                        None => {},
                    }
                    let a = Alert {
                        alert_id,
                        event_id: sig.event_id,
                        symbol: own_bytes(sig.symbol.as_slice()),
                        rule: rule_text(cfg.threshold_num, cfg.threshold_den),
                        pct_change: c,
                        price: sig.price,
                        ts: sig.ts,
                        source: alerting_source(),
                    };
                    AlertOutcome::Raise(a)
                },
            }
        },
    }
}

/// The publish outcome applied to the throttle: only a confirmed publish advances
/// the throttle for the alert's symbol and acknowledges the input. A
/// failed or timed-out publish changes nothing, so the redelivered signal
/// is evaluated afresh and can still alert.
pub fn alert_commit(th: &mut ThrottleState, symbol: &Vec<u8>, now: i64, publish_ok: bool) -> (ack:
    bool)
    ensures
        ack == publish_ok,
        publish_ok ==> final(th).spec_get(symbol@) == Some(now),
        publish_ok ==> forall|sym: Seq<u8>|
            sym != symbol@ ==> final(th).spec_get(sym) == old(th).spec_get(sym),
        !publish_ok ==> *final(th) == *old(th),
{
    if publish_ok {
        th.map.put(symbol, now);
        true
    } else {
        false
    }
}

/// A signal whose change is below the threshold never alerts, whatever
/// the throttle state and the clock say.
pub proof fn lemma_below_threshold_never_alerts(
    s: SignalV,
    th: ThrottleState,
    cfg: AlertConfig,
    now: i64,
)
    requires
        s.pct_change matches Some(c) ==> !spec_breaches(c, cfg.threshold_num, cfg.threshold_den),
    ensures
        !spec_should_alert(s, th, cfg, now),
{
}

/// After an alert for a symbol is confirmed at `now1`, a second
/// alert-worthy signal for the same symbol processed within the cool-down
/// does not alert: two breaching signals less than the cool-down apart
/// produce at most one alert.
pub proof fn lemma_cooldown_throttles(
    s2: SignalV,
    th1: ThrottleState,
    cfg: AlertConfig,
    now1: i64,
    now2: i64,
)
    requires
        th1.spec_get(s2.symbol) == Some(now1),
        now2 - now1 < cfg.cooldown_ms,
    ensures
        !spec_should_alert(s2, th1, cfg, now2),
{
}

/// A publish failure never advances throttle state, so a signal that
/// should alert still alerts when it is redelivered later and evaluated
/// against the unchanged state.
pub proof fn lemma_failed_publish_still_alerts(
    s: SignalV,
    th: ThrottleState,
    cfg: AlertConfig,
    now1: i64,
    now2: i64,
)
    requires
        spec_should_alert(s, th, cfg, now1),
        now1 <= now2,
    ensures
        spec_should_alert(s, th, cfg, now2),
{
}

} // verus!
