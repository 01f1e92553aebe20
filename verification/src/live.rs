//! The alerting decision taken at the wall clock, with a freshly drawn
//! alert identifier. The clock and the generator are outside calls;
//! nothing is promised of their values, so the outcome is stated for
//! whatever time and identifier they returned — and, where no clock value
//! can change the decision, unconditionally.

use vstd::prelude::*;
use crate::alerting::{
    evaluate, spec_alert_of, spec_breaches, spec_should_alert, AlertConfig, AlertOutcome,
    ThrottleState,
};
use crate::codec::spec_enc_signal;
use crate::message::{alert_valid, dead_letter_valid, signal_valid, DeadLetterV, SignalV};
use crate::MAX_FIELD;

verus! {

/// Relies on uuid::Uuid::new_v4 (and Uuid::as_u128): a freshly generated
/// random version-4 identifier as its 128-bit value. The value is random,
/// so nothing is promised of it.
#[verifier::external_body]
fn random_id() -> u128 {
    uuid::Uuid::new_v4().as_u128()
}

/// Relies on chrono::Utc::now (and DateTime::timestamp_millis): the
/// current wall-clock time in milliseconds since the Unix epoch. The
/// value depends on the clock, so nothing is promised of it.
#[verifier::external_body]
fn current_millis() -> i64 {
    chrono::Utc::now().timestamp_millis()
}

/// The alerting decision at the wall clock: evaluates one payload at the
/// moment of the call, with a fresh alert identifier, and returns the
/// outcome together with the clock reading it used, so the caller can
/// advance the throttle to the same instant on confirmed delivery.
///
/// The outcome is exactly `evaluate`'s, at the returned time. Where the
/// clock cannot decide, the contract says so without reference to it: a
/// decodable signal that breaches the threshold while its symbol has no
/// throttle entry always raises, and `NoAlert` comes only from a missing
/// change, a change below the threshold, or an existing throttle entry.
pub fn evaluate_now(
    payload: &[u8],
    from_stream: &[u8],
    th: &ThrottleState,
    cfg: &AlertConfig,
) -> (r: (AlertOutcome, i64))
    requires
        cfg.wf(),
        from_stream@.len() <= MAX_FIELD,
        payload@.len() <= MAX_FIELD,
    ensures
        (r.0 is Unreadable <==> (forall|s: SignalV|
            !(signal_valid(s) && payload@ == #[trigger] spec_enc_signal(s)))),
        (r.0 matches AlertOutcome::Unreadable(d) ==> d@ == (DeadLetterV {
            from_stream: from_stream@,
            payload: payload@,
            captured_at: r.1,
        }) && dead_letter_valid(d@)),
        forall|s: SignalV|
            signal_valid(s) && payload@ == #[trigger] spec_enc_signal(s) ==> (if spec_should_alert(
                s,
                *th,
                *cfg,
                r.1,
            ) {
                r.0 matches AlertOutcome::Raise(a) && a@ == spec_alert_of(s, *cfg, a@.alert_id)
            } else {
                r.0 is NoAlert
            }),
        forall|s: SignalV|
            signal_valid(s) && payload@ == #[trigger] spec_enc_signal(s) && (s.pct_change
                matches Some(c) && spec_breaches(c, cfg.threshold_num, cfg.threshold_den))
                && th.spec_get(s.symbol) is None ==> (r.0 matches AlertOutcome::Raise(a) && a@
                == spec_alert_of(s, *cfg, a@.alert_id)),
        r.0 is NoAlert ==> (forall|s: SignalV|
            signal_valid(s) && payload@ == #[trigger] spec_enc_signal(s) ==> (s.pct_change is None
                || (s.pct_change matches Some(c) && !spec_breaches(
                c,
                cfg.threshold_num,
                cfg.threshold_den,
            )) || th.spec_get(s.symbol) is Some)),
        r.0 matches AlertOutcome::Raise(a) ==> alert_valid(a@),
{
    let now = current_millis();
    let alert_id = random_id();
    let outcome = evaluate(payload, from_stream, th, cfg, now, alert_id);
    (outcome, now)
}

} // verus!
