use tradepulse::aggregator::{agg_commit, agg_step, make_signal, AggAction, AggState};
use tradepulse::alerting::{
    alert_commit, evaluate, rule_text, AlertConfig, AlertOutcome, ThrottleState,
};
use tradepulse::codec::{encode_signal, encode_tick};
use tradepulse::live::evaluate_now;
use tradepulse::message::{Pct, Signal, Tick};

// Prices are fixed-point with four decimal places in these tests:
// 100.0 is written 1_000_000.
const SCALE: u64 = 10_000;

fn tick(id: u128, symbol: &[u8], price: u64, ts: i64) -> Tick {
    Tick {
        event_id: id,
        symbol: symbol.to_vec(),
        price,
        volume: 10,
        ts,
        source: b"ingest".to_vec(),
    }
}

#[test]
fn first_tick_has_no_change() {
    let st = AggState::new();
    let s = make_signal(&tick(1, b"A", 100 * SCALE, 0), &st);
    assert_eq!(s.prev_price, None);
    assert_eq!(s.pct_change, None);
    assert_eq!(s.source, b"aggregator".to_vec());
    assert_eq!(s.price, 100 * SCALE);
}

#[test]
fn second_tick_carries_previous_price_and_exact_change() {
    let mut st = AggState::new();
    let s1 = make_signal(&tick(1, b"A", 100 * SCALE, 0), &st);
    assert!(agg_commit(&mut st, &s1, true));
    let s2 = make_signal(&tick(2, b"A", 101 * SCALE, 1000), &st);
    assert_eq!(s2.prev_price, Some(100 * SCALE));
    // (101 - 100) / 100 * 100 = 1.0 percent, held as 1_000_000 / 1_000_000
    let c = s2.pct_change.unwrap();
    assert_eq!(c.num as i128, 100 * (101 * SCALE as i128 - 100 * SCALE as i128));
    assert_eq!(c.den, 100 * SCALE);
    assert_eq!(c.num as f64 / c.den as f64, 1.0);
}

#[test]
fn failed_publish_leaves_aggregation_state_alone() {
    let mut st = AggState::new();
    let s1 = make_signal(&tick(1, b"A", 100 * SCALE, 0), &st);
    // publish fails: no acknowledgment, no state advance
    assert!(!agg_commit(&mut st, &s1, false));
    // the redelivered tick is processed from scratch: still a first sighting
    let s1b = make_signal(&tick(1, b"A", 100 * SCALE, 0), &st);
    assert_eq!(s1b.prev_price, None);
}

#[test]
fn cross_symbol_state_is_independent() {
    let mut st = AggState::new();
    let s1 = make_signal(&tick(1, b"A", 100 * SCALE, 0), &st);
    assert!(agg_commit(&mut st, &s1, true));
    let s2 = make_signal(&tick(2, b"B", 50 * SCALE, 1), &st);
    assert_eq!(s2.prev_price, None);
    let s3 = make_signal(&tick(3, b"A", 101 * SCALE, 2), &st);
    assert_eq!(s3.prev_price, Some(100 * SCALE));
}

#[test]
fn aggregator_skips_unreadable_input_without_output() {
    let st = AggState::new();
    match agg_step(b"{not json", &st) {
        AggAction::Skip => {},
        AggAction::Forward(_) => panic!("garbage must not produce a signal"),
    }
}

#[test]
fn aggregator_forwards_each_decoded_tick() {
    let st = AggState::new();
    let payload = encode_tick(&tick(7, b"A", 100 * SCALE, 0));
    match agg_step(&payload, &st) {
        AggAction::Forward(s) => {
            assert_eq!(s.event_id, 7);
            assert_eq!(s.symbol, b"A".to_vec());
        },
        AggAction::Skip => panic!("a valid tick must be forwarded"),
    }
}

fn cfg_20pct_10s() -> AlertConfig {
    AlertConfig { threshold_num: 20, threshold_den: 1, cooldown_ms: 10_000 }
}

#[test]
fn end_to_end_three_ticks_one_alert() {
    // Ticks (A,100.0), (A,101.0), (A,150.0); threshold 20%; cooldown 10 s;
    // one second apart. Changes: absent, 1.0, about 48.51; one alert, for
    // the third.
    let mut st = AggState::new();
    let mut th = ThrottleState::new();
    let cfg = cfg_20pct_10s();
    let prices: [u64; 3] = [100 * SCALE, 101 * SCALE, 150 * SCALE];
    let mut alerts = Vec::new();
    let mut changes: Vec<Option<f64>> = Vec::new();
    for (i, price) in prices.iter().enumerate() {
        let t = tick(i as u128 + 1, b"A", *price, i as i64 * 1000);
        let sig = make_signal(&t, &st);
        changes.push(sig.pct_change.map(|c| c.num as f64 / c.den as f64));
        assert!(agg_commit(&mut st, &sig, true));
        let payload = encode_signal(&sig);
        let now = i as i64 * 1000;
        match evaluate(&payload, b"signals", &th, &cfg, now, 99) {
            AlertOutcome::Raise(a) => {
                assert!(alert_commit(&mut th, &a.symbol, now, true));
                alerts.push(a);
            },
            AlertOutcome::NoAlert => {},
            AlertOutcome::Unreadable(_) => panic!("encoded signal must decode"),
        }
    }
    assert_eq!(changes[0], None);
    assert_eq!(changes[1], Some(1.0));
    let third = changes[2].unwrap();
    assert!((third - 48.5148).abs() < 0.001);
    assert_eq!(alerts.len(), 1);
    let a = &alerts[0];
    assert_eq!(a.event_id, 3);
    assert_eq!(a.rule, b"abs(percent_change) >= 20%".to_vec());
    assert_eq!(a.source, b"alert-service".to_vec());
    assert!((a.pct_change.num as f64 / a.pct_change.den as f64 - 48.5148).abs() < 0.001);
}

#[test]
fn malformed_payload_goes_to_dead_letter() {
    // "{not json" on the signals stream: one dead-letter record with
    // the stream name and the raw payload, zero alerts.
    let th = ThrottleState::new();
    let cfg = cfg_20pct_10s();
    match evaluate(b"{not json", b"signals", &th, &cfg, 5000, 1) {
        AlertOutcome::Unreadable(d) => {
            assert_eq!(d.from_stream, b"signals".to_vec());
            assert_eq!(d.payload, b"{not json".to_vec());
            assert_eq!(d.captured_at, 5000);
        },
        _ => panic!("unreadable input must be dead-lettered"),
    }
}

#[test]
fn empty_payload_goes_to_dead_letter() {
    let th = ThrottleState::new();
    let cfg = cfg_20pct_10s();
    match evaluate(b"", b"signals", &th, &cfg, 0, 1) {
        AlertOutcome::Unreadable(d) => {
            assert_eq!(d.payload, Vec::<u8>::new());
        },
        _ => panic!("an empty payload must be dead-lettered"),
    }
}

fn breaching_signal(id: u128, ts: i64) -> Signal {
    // 100.0 -> 150.0: +50 percent.
    Signal {
        event_id: id,
        symbol: b"A".to_vec(),
        price: 150 * SCALE,
        prev_price: Some(100 * SCALE),
        pct_change: Some(Pct {
            num: 100 * (150 * SCALE as i64 - 100 * SCALE as i64),
            den: 100 * SCALE,
        }),
        ts,
        source: b"aggregator".to_vec(),
    }
}

#[test]
fn below_threshold_never_alerts() {
    let th = ThrottleState::new();
    let cfg = cfg_20pct_10s();
    let mut s = breaching_signal(1, 0);
    // 1 percent move, below the 20 percent threshold
    s.price = 101 * SCALE;
    s.pct_change = Some(Pct { num: 100 * (101 * SCALE as i64 - 100 * SCALE as i64), den: 100 * SCALE });
    let payload = encode_signal(&s);
    match evaluate(&payload, b"signals", &th, &cfg, 0, 1) {
        AlertOutcome::NoAlert => {},
        _ => panic!("a below-threshold signal must not alert"),
    }
}

#[test]
fn first_observation_never_alerts() {
    let th = ThrottleState::new();
    let cfg = cfg_20pct_10s();
    let s = Signal {
        event_id: 1,
        symbol: b"A".to_vec(),
        price: 150 * SCALE,
        prev_price: None,
        pct_change: None,
        ts: 0,
        source: b"aggregator".to_vec(),
    };
    let payload = encode_signal(&s);
    match evaluate(&payload, b"signals", &th, &cfg, 0, 1) {
        AlertOutcome::NoAlert => {},
        _ => panic!("a first observation must not alert"),
    }
}

#[test]
fn cooldown_throttles_second_alert() {
    // Two breaching signals for one symbol, one second apart, cooldown
    // ten seconds: at most one alert.
    let mut th = ThrottleState::new();
    let cfg = cfg_20pct_10s();
    let p1 = encode_signal(&breaching_signal(1, 0));
    let p2 = encode_signal(&breaching_signal(2, 1000));
    match evaluate(&p1, b"signals", &th, &cfg, 0, 1) {
        AlertOutcome::Raise(a) => {
            assert!(alert_commit(&mut th, &a.symbol, 0, true));
        },
        _ => panic!("the first breaching signal must alert"),
    }
    match evaluate(&p2, b"signals", &th, &cfg, 1000, 2) {
        AlertOutcome::NoAlert => {},
        _ => panic!("a second alert within the cooldown must be throttled"),
    }
}

#[test]
fn cooldown_expiry_allows_next_alert() {
    let mut th = ThrottleState::new();
    let cfg = cfg_20pct_10s();
    let p1 = encode_signal(&breaching_signal(1, 0));
    let p2 = encode_signal(&breaching_signal(2, 20_000));
    match evaluate(&p1, b"signals", &th, &cfg, 0, 1) {
        AlertOutcome::Raise(a) => {
            assert!(alert_commit(&mut th, &a.symbol, 0, true));
        },
        _ => panic!("the first breaching signal must alert"),
    }
    match evaluate(&p2, b"signals", &th, &cfg, 20_000, 2) {
        AlertOutcome::Raise(_) => {},
        _ => panic!("after the cooldown the next breaching signal must alert"),
    }
}

#[test]
fn failed_publish_does_not_advance_throttle() {
    // a breaching signal alerts; its publish fails; the redelivered
    // signal still alerts on the retry.
    let mut th = ThrottleState::new();
    let cfg = cfg_20pct_10s();
    let p = encode_signal(&breaching_signal(1, 0));
    let a1 = match evaluate(&p, b"signals", &th, &cfg, 0, 1) {
        AlertOutcome::Raise(a) => a,
        _ => panic!("the breaching signal must alert"),
    };
    // publish fails: no acknowledgment, no throttle advance
    assert!(!alert_commit(&mut th, &a1.symbol, 0, false));
    match evaluate(&p, b"signals", &th, &cfg, 1000, 2) {
        AlertOutcome::Raise(_) => {},
        _ => panic!("the redelivered signal must still alert"),
    }
}

#[test]
fn rule_text_renders_threshold() {
    assert_eq!(rule_text(20, 1), b"abs(percent_change) >= 20%".to_vec());
    assert_eq!(rule_text(1, 5), b"abs(percent_change) >= 1/5%".to_vec());
    assert_eq!(rule_text(0, 1), b"abs(percent_change) >= 0%".to_vec());
}

#[test]
fn default_config_is_fifth_of_a_percent_and_ten_seconds() {
    let cfg = AlertConfig::default();
    assert_eq!(cfg.threshold_num, 1);
    assert_eq!(cfg.threshold_den, 5);
    assert_eq!(cfg.cooldown_ms, 10_000);
}

#[test]
fn negative_move_breaches_by_magnitude() {
    // 100.0 -> 50.0 is -50 percent; |−50| >= 20 must alert.
    let th = ThrottleState::new();
    let cfg = cfg_20pct_10s();
    let s = Signal {
        event_id: 1,
        symbol: b"A".to_vec(),
        price: 50 * SCALE,
        prev_price: Some(100 * SCALE),
        pct_change: Some(Pct {
            num: 100 * (50 * SCALE as i64 - 100 * SCALE as i64),
            den: 100 * SCALE,
        }),
        ts: 0,
        source: b"aggregator".to_vec(),
    };
    let payload = encode_signal(&s);
    match evaluate(&payload, b"signals", &th, &cfg, 0, 7) {
        AlertOutcome::Raise(a) => {
            assert!(a.pct_change.num < 0);
            assert_eq!(a.alert_id, 7);
        },
        _ => panic!("a large negative move must alert"),
    }
}

#[test]
fn live_evaluation_dead_letters_garbage() {
    let th = ThrottleState::new();
    let cfg = cfg_20pct_10s();
    let (outcome, now) = evaluate_now(b"{not json", b"signals", &th, &cfg);
    match outcome {
        AlertOutcome::Unreadable(d) => {
            assert_eq!(d.from_stream, b"signals".to_vec());
            assert_eq!(d.payload, b"{not json".to_vec());
            assert_eq!(d.captured_at, now);
        },
        _ => panic!("unreadable input must be dead-lettered"),
    }
}

#[test]
fn live_evaluation_raises_with_fresh_state() {
    // a breaching signal whose symbol has no throttle entry alerts at
    // every clock reading; the returned instant then seeds the throttle
    let mut th = ThrottleState::new();
    let cfg = cfg_20pct_10s();
    let payload = encode_signal(&breaching_signal(5, 0));
    let (outcome, now) = evaluate_now(&payload, b"signals", &th, &cfg);
    match outcome {
        AlertOutcome::Raise(a) => {
            assert_eq!(a.event_id, 5);
            assert_eq!(a.symbol, b"A".to_vec());
            assert!(alert_commit(&mut th, &a.symbol, now, true));
        },
        _ => panic!("a breaching signal against fresh state must alert"),
    }
    // within the cooldown of the same clock, the retry is throttled
    let (outcome2, _) = evaluate_now(&payload, b"signals", &th, &cfg);
    match outcome2 {
        AlertOutcome::NoAlert => {},
        _ => panic!("the second evaluation within the cooldown must be throttled"),
    }
}
