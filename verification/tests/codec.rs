use tradepulse::broker::{BrokerConfig, SettingKey};
use tradepulse::codec::{
    decode_alert, decode_signal, decode_tick, encode_alert, encode_dead_letter, encode_signal,
    encode_tick,
};
use tradepulse::message::{Alert, DeadLetter, Pct, Signal, Tick};

fn sample_tick() -> Tick {
    Tick {
        event_id: 0x0123_4567_89ab_cdef_0011_2233_4455_6677,
        symbol: b"MSFT".to_vec(),
        price: 4_213_700,
        volume: -250,
        ts: 1_700_000_000_123,
        source: b"ingest".to_vec(),
    }
}

#[test]
fn tick_round_trip() {
    let t = sample_tick();
    let bytes = encode_tick(&t);
    assert!(bytes.iter().all(|b| b.is_ascii()));
    assert_eq!(decode_tick(&bytes), Some(t));
}

#[test]
fn signal_round_trip_with_change() {
    let s = Signal {
        event_id: 42,
        symbol: b"A".to_vec(),
        price: 1_500_000,
        prev_price: Some(1_010_000),
        pct_change: Some(Pct { num: 49_000_000, den: 1_010_000 }),
        ts: -5,
        source: b"aggregator".to_vec(),
    };
    let bytes = encode_signal(&s);
    assert_eq!(decode_signal(&bytes), Some(s));
}

#[test]
fn signal_round_trip_without_change() {
    let s = Signal {
        event_id: u128::MAX,
        symbol: b"".to_vec(),
        price: 1,
        prev_price: None,
        pct_change: None,
        ts: i64::MIN,
        source: b"aggregator".to_vec(),
    };
    let bytes = encode_signal(&s);
    assert_eq!(decode_signal(&bytes), Some(s));
}

#[test]
fn alert_round_trip() {
    let a = Alert {
        alert_id: 7,
        event_id: 9,
        symbol: b"GOOG".to_vec(),
        rule: b"abs(percent_change) >= 20%".to_vec(),
        pct_change: Pct { num: -49_000_000, den: 1_010_000 },
        price: 515_000,
        ts: 1_700_000_000_456,
        source: b"alert-service".to_vec(),
    };
    let bytes = encode_alert(&a);
    assert_eq!(decode_alert(&bytes), Some(a));
}

#[test]
fn dead_letter_encoding_is_readable_text() {
    let d = DeadLetter {
        from_stream: b"signals".to_vec(),
        payload: b"{not json".to_vec(),
        captured_at: 12345,
    };
    let bytes = encode_dead_letter(&d);
    let text = String::from_utf8(bytes).unwrap();
    assert!(text.contains("signals"));
    assert!(text.contains("{not json"));
}

#[test]
fn decoders_reject_garbage_and_truncation() {
    assert_eq!(decode_tick(b"{not json"), None);
    assert_eq!(decode_signal(b"{not json"), None);
    assert_eq!(decode_alert(b""), None);
    let t = sample_tick();
    let bytes = encode_tick(&t);
    // truncation
    assert_eq!(decode_tick(&bytes[..bytes.len() - 1]), None);
    // trailing junk
    let mut longer = bytes.clone();
    longer.push(b'x');
    assert_eq!(decode_tick(&longer), None);
    // a tick is not a signal
    assert_eq!(decode_signal(&bytes), None);
}

#[test]
fn decoder_rejects_inconsistent_change() {
    let s = Signal {
        event_id: 1,
        symbol: b"A".to_vec(),
        price: 1_500_000,
        prev_price: Some(1_000_000),
        pct_change: Some(Pct { num: 50_000_000, den: 1_000_000 }),
        ts: 0,
        source: b"aggregator".to_vec(),
    };
    let good = encode_signal(&s);
    // the change numerator's last digit sits at a fixed offset for a
    // one-byte symbol: kind 1, id 41, symbol 10, price 21, change tag and
    // mark 2, previous price 20, sign 1, then 19 digits of magnitude
    let mut corrupted = good.clone();
    assert_eq!(corrupted[114], b'0');
    corrupted[114] = b'1';
    assert_eq!(decode_signal(&corrupted), None);
    assert_eq!(decode_signal(&good), Some(s));
}

#[test]
fn client_settings_follow_the_configuration() {
    let plain = BrokerConfig {
        bootstrap: b"localhost:9092".to_vec(),
        security_protocol: None,
        sasl_mechanism: None,
        sasl_username: None,
        sasl_password: None,
        ssl_ca_location: None,
    };
    let settings = plain.client_settings();
    assert_eq!(settings.len(), 3);
    assert_eq!(settings[0].0, SettingKey::BootstrapServers);
    assert_eq!(settings[0].1, b"localhost:9092".to_vec());
    assert_eq!(settings[1], (SettingKey::MessageTimeoutMs, b"5000".to_vec()));
    assert_eq!(settings[2], (SettingKey::EnableIdempotence, b"true".to_vec()));

    let secured = BrokerConfig {
        bootstrap: b"broker:9093".to_vec(),
        security_protocol: Some(b"SASL_SSL".to_vec()),
        sasl_mechanism: Some(b"SCRAM-SHA-256".to_vec()),
        sasl_username: Some(b"user".to_vec()),
        sasl_password: Some(b"SECRET-REDACTED".to_vec()),
        ssl_ca_location: None,
    };
    let settings = secured.client_settings();
    assert_eq!(settings.len(), 7);
    assert_eq!(settings[3], (SettingKey::SecurityProtocol, b"SASL_SSL".to_vec()));
    assert_eq!(settings[6], (SettingKey::SaslPassword, b"SECRET-REDACTED".to_vec()));
}
