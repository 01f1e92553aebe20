//! The wire codec: a field-tagged, all-ASCII record format.
//!
//! Every record is a kind byte followed by fields, each introduced by a
//! one-byte tag. Numbers are fixed-width decimal numerals; byte strings
//! carry an eight-digit length before their content; signed values carry
//! an explicit sign. The encoders produce exactly the `spec_enc_*`
//! sequences, and the decoders both accept every such sequence (the
//! round trip) and accept nothing else.

use vstd::prelude::*;
use vstd::arithmetic::div_mod::{
    lemma_fundamental_div_mod, lemma_fundamental_div_mod_converse, lemma_mod_bound,
    lemma_multiply_divide_lt, lemma_small_mod,
};
use crate::digits::{
    all_digits, dec_val, enc_dec, lemma_digits_val, lemma_pow10_consts, lemma_val_digits, pow10,
    read_dec, spec_digits,
};
use crate::message::{
    signal_valid, tick_valid, alert_valid, dead_letter_valid, Alert, AlertV, DeadLetter,
    DeadLetterV, Pct, Signal, SignalV, Tick, TickV,
};
use crate::{MAX_FIELD, MAX_PRICE};

verus! {

pub const KIND_TICK: u8 = 84;  // 'T'

pub const KIND_SIGNAL: u8 = 83;  // 'S'

pub const KIND_ALERT: u8 = 65;  // 'A'

pub const KIND_DEAD_LETTER: u8 = 68;  // 'D'

pub const TAG_EVENT_ID: u8 = 105;  // 'i'

pub const TAG_ALERT_ID: u8 = 97;  // 'a'

pub const TAG_SYMBOL: u8 = 121;  // 'y'

pub const TAG_PRICE: u8 = 112;  // 'p'

pub const TAG_VOLUME: u8 = 118;  // 'v'

pub const TAG_TS: u8 = 116;  // 't'

pub const TAG_SOURCE: u8 = 115;  // 's'

pub const TAG_CHANGE: u8 = 113;  // 'q'

pub const MARK_ABSENT: u8 = 78;  // 'N'

pub const MARK_PRESENT: u8 = 80;  // 'P'

pub const TAG_RULE: u8 = 114;  // 'r'

pub const TAG_PCT: u8 = 99;  // 'c'

pub const TAG_FROM: u8 = 102;  // 'f'

pub const TAG_PAYLOAD: u8 = 120;  // 'x'

pub const SIGN_POS: u8 = 43;  // '+'

pub const SIGN_NEG: u8 = 45;  // '-'

pub const TWO64: u128 = 0x1_0000_0000_0000_0000;

pub open spec fn abs_i64(n: i64) -> nat {
    if n < 0 {
        (-(n as int)) as nat
    } else {
        n as nat
    }
}

/// A 128-bit identifier: tag, then the two 64-bit halves as 20 digits each.
pub open spec fn enc_id(tag: u8, n: u128) -> Seq<u8> {
    seq![tag] + spec_digits((n as nat) / (TWO64 as nat), 20) + spec_digits(
        (n as nat) % (TWO64 as nat),
        20,
    )
}

/// An unsigned field: tag, then 20 digits.
pub open spec fn enc_u64(tag: u8, n: u64) -> Seq<u8> {
    seq![tag] + spec_digits(n as nat, 20)
}

/// A sign byte and 19 digits of magnitude.
pub open spec fn sign_mag(n: i64) -> Seq<u8> {
    seq![if n < 0 { SIGN_NEG } else { SIGN_POS }] + spec_digits(abs_i64(n), 19)
}

/// A signed field: tag, then sign and magnitude.
pub open spec fn enc_i64(tag: u8, n: i64) -> Seq<u8> {
    seq![tag] + sign_mag(n)
}

/// A byte-string field: tag, eight digits of length, then the content.
pub open spec fn enc_bytes(tag: u8, s: Seq<u8>) -> Seq<u8> {
    seq![tag] + spec_digits(s.len(), 8) + s
}

/// The previous-price / percent-change pair of a signal: either a single
/// absence mark, or the previous price and the exact rational change.
pub open spec fn enc_change(prev: Option<u64>, pct: Option<Pct>) -> Seq<u8> {
    match (prev, pct) {
        (Some(p), Some(c)) => seq![TAG_CHANGE, MARK_PRESENT] + spec_digits(p as nat, 20)
            + sign_mag(c.num) + spec_digits(c.den as nat, 20),
        _ => seq![TAG_CHANGE, MARK_ABSENT],
    }
}

pub open spec fn spec_enc_tick(t: TickV) -> Seq<u8> {
    seq![KIND_TICK] + enc_id(TAG_EVENT_ID, t.event_id) + enc_bytes(TAG_SYMBOL, t.symbol)
        + enc_u64(TAG_PRICE, t.price) + enc_i64(TAG_VOLUME, t.volume) + enc_i64(TAG_TS, t.ts)
        + enc_bytes(TAG_SOURCE, t.source)
}

pub open spec fn spec_enc_signal(s: SignalV) -> Seq<u8> {
    seq![KIND_SIGNAL] + enc_id(TAG_EVENT_ID, s.event_id) + enc_bytes(TAG_SYMBOL, s.symbol)
        + enc_u64(TAG_PRICE, s.price) + enc_change(s.prev_price, s.pct_change)
        + enc_i64(TAG_TS, s.ts) + enc_bytes(TAG_SOURCE, s.source)
}

pub open spec fn spec_enc_alert(a: AlertV) -> Seq<u8> {
    seq![KIND_ALERT] + enc_id(TAG_ALERT_ID, a.alert_id) + enc_id(TAG_EVENT_ID, a.event_id)
        + enc_bytes(TAG_SYMBOL, a.symbol) + enc_bytes(TAG_RULE, a.rule) + seq![TAG_PCT]
        + sign_mag(a.pct_change.num) + spec_digits(a.pct_change.den as nat, 20)
        + enc_u64(TAG_PRICE, a.price) + enc_i64(TAG_TS, a.ts) + enc_bytes(TAG_SOURCE, a.source)
}

pub open spec fn spec_enc_dead_letter(d: DeadLetterV) -> Seq<u8> {
    seq![KIND_DEAD_LETTER] + enc_bytes(TAG_FROM, d.from_stream) + enc_bytes(
        TAG_PAYLOAD,
        d.payload,
    ) + enc_i64(TAG_TS, d.captured_at)
}

fn append_bytes(out: &mut Vec<u8>, s: &[u8])
    ensures
        final(out)@ == old(out)@ + s@,
{
    let n = s.len();
    let mut j: usize = 0;
    while j < n
        invariant
            n == s@.len(),
            j <= n,
            out@ == old(out)@ + s@.take(j as int),
        decreases n - j,
    {
        out.push(s[j]);
        proof {
            assert(old(out)@ + s@.take(j + 1) =~= (old(out)@ + s@.take(j as int)).push(
                s@[j as int],
            ));
        }
        j = j + 1;
    }
    proof {
        assert(s@.take(n as int) =~= s@);
    }
}

fn put_id(out: &mut Vec<u8>, tag: u8, n: u128)
    ensures
        final(out)@ == old(out)@ + enc_id(tag, n),
{
    proof {
        lemma_pow10_consts();
        lemma_multiply_divide_lt(n as int, TWO64 as int, TWO64 as int);
    }
    out.push(tag);
    let mut hi = enc_dec(n / TWO64, 20);
    out.append(&mut hi);
    let mut lo = enc_dec(n % TWO64, 20);
    out.append(&mut lo);
    proof {
        assert(out@ =~= old(out)@ + enc_id(tag, n));
    }
}

fn put_u64(out: &mut Vec<u8>, tag: u8, n: u64)
    ensures
        final(out)@ == old(out)@ + enc_u64(tag, n),
{
    proof {
        lemma_pow10_consts();
    }
    out.push(tag);
    let mut d = enc_dec(n as u128, 20);
    out.append(&mut d);
    proof {
        assert(out@ =~= old(out)@ + enc_u64(tag, n));
    }
}

fn put_sign_mag(out: &mut Vec<u8>, n: i64)
    ensures
        final(out)@ == old(out)@ + sign_mag(n),
{
    proof {
        lemma_pow10_consts();
    }
    let mag: u128;
    if n < 0 {
        out.push(SIGN_NEG);
        mag = (-(n as i128)) as u128;
    } else {
        out.push(SIGN_POS);
        mag = n as u128;
    }
    let mut d = enc_dec(mag, 19);
    out.append(&mut d);
    proof {
        assert(out@ =~= old(out)@ + sign_mag(n));
    }
}

fn put_i64(out: &mut Vec<u8>, tag: u8, n: i64)
    ensures
        final(out)@ == old(out)@ + enc_i64(tag, n),
{
    out.push(tag);
    put_sign_mag(out, n);
    proof {
        assert(out@ =~= old(out)@ + enc_i64(tag, n));
    }
}

fn put_bytes(out: &mut Vec<u8>, tag: u8, s: &Vec<u8>)
    requires
        s@.len() <= MAX_FIELD,
    ensures
        final(out)@ == old(out)@ + enc_bytes(tag, s@),
{
    proof {
        lemma_pow10_consts();
    }
    out.push(tag);
    let mut d = enc_dec(s.len() as u128, 8);
    out.append(&mut d);
    append_bytes(out, s.as_slice());
    proof {
        assert(out@ =~= old(out)@ + enc_bytes(tag, s@));
    }
}

fn put_change(out: &mut Vec<u8>, prev: &Option<u64>, pct: &Option<Pct>)
    ensures
        final(out)@ == old(out)@ + enc_change(*prev, *pct),
{
    proof {
        lemma_pow10_consts();
    }
    match (prev, pct) {
        (Some(p), Some(c)) => {
            out.push(TAG_CHANGE);
            out.push(MARK_PRESENT);
            let mut d = enc_dec(*p as u128, 20);
            out.append(&mut d);
            put_sign_mag(out, c.num);
            let mut d2 = enc_dec(c.den as u128, 20);
            out.append(&mut d2);
            proof {
                assert(out@ =~= old(out)@ + enc_change(*prev, *pct));
            }
        },
        _ => {
            out.push(TAG_CHANGE);
            out.push(MARK_ABSENT);
            proof {
                assert(out@ =~= old(out)@ + enc_change(*prev, *pct));
            }
        },
    }
}

/// Encodes a tick; total for every valid tick.
pub fn encode_tick(t: &Tick) -> (r: Vec<u8>)
    requires
        tick_valid(t@),
    ensures
        r@ == spec_enc_tick(t@),
{
    let mut out: Vec<u8> = Vec::new();
    out.push(KIND_TICK);
    put_id(&mut out, TAG_EVENT_ID, t.event_id);
    put_bytes(&mut out, TAG_SYMBOL, &t.symbol);
    put_u64(&mut out, TAG_PRICE, t.price);
    put_i64(&mut out, TAG_VOLUME, t.volume);
    put_i64(&mut out, TAG_TS, t.ts);
    put_bytes(&mut out, TAG_SOURCE, &t.source);
    proof {
        assert(out@ =~= spec_enc_tick(t@));
    }
    out
}

/// Encodes a signal; total for every valid signal.
pub fn encode_signal(s: &Signal) -> (r: Vec<u8>)
    requires
        signal_valid(s@),
    ensures
        r@ == spec_enc_signal(s@),
{
    let mut out: Vec<u8> = Vec::new();
    out.push(KIND_SIGNAL);
    put_id(&mut out, TAG_EVENT_ID, s.event_id);
    put_bytes(&mut out, TAG_SYMBOL, &s.symbol);
    put_u64(&mut out, TAG_PRICE, s.price);
    put_change(&mut out, &s.prev_price, &s.pct_change);
    put_i64(&mut out, TAG_TS, s.ts);
    put_bytes(&mut out, TAG_SOURCE, &s.source);
    proof {
        assert(out@ =~= spec_enc_signal(s@));
    }
    out
}

/// Encodes an alert; total for every valid alert.
pub fn encode_alert(a: &Alert) -> (r: Vec<u8>)
    requires
        alert_valid(a@),
    ensures
        r@ == spec_enc_alert(a@),
{
    proof {
        lemma_pow10_consts();
    }
    let mut out: Vec<u8> = Vec::new();
    out.push(KIND_ALERT);
    put_id(&mut out, TAG_ALERT_ID, a.alert_id);
    put_id(&mut out, TAG_EVENT_ID, a.event_id);
    put_bytes(&mut out, TAG_SYMBOL, &a.symbol);
    put_bytes(&mut out, TAG_RULE, &a.rule);
    out.push(TAG_PCT);
    put_sign_mag(&mut out, a.pct_change.num);
    let mut d = enc_dec(a.pct_change.den as u128, 20);
    out.append(&mut d);
    put_u64(&mut out, TAG_PRICE, a.price);
    put_i64(&mut out, TAG_TS, a.ts);
    put_bytes(&mut out, TAG_SOURCE, &a.source);
    proof {
        assert(out@ =~= spec_enc_alert(a@));
    }
    out
}

/// Encodes a dead-letter record; total for every valid record.
pub fn encode_dead_letter(d: &DeadLetter) -> (r: Vec<u8>)
    requires
        dead_letter_valid(d@),
    ensures
        r@ == spec_enc_dead_letter(d@),
{
    let mut out: Vec<u8> = Vec::new();
    out.push(KIND_DEAD_LETTER);
    put_bytes(&mut out, TAG_FROM, &d.from_stream);
    put_bytes(&mut out, TAG_PAYLOAD, &d.payload);
    put_i64(&mut out, TAG_TS, d.captured_at);
    proof {
        assert(out@ =~= spec_enc_dead_letter(d@));
    }
    out
}

/// Joining two adjacent regions of a buffer joins their contents.
proof fn lemma_split(buf: Seq<u8>, lo: int, mid: int, hi: int, a: Seq<u8>, b: Seq<u8>)
    requires
        0 <= lo <= mid <= hi <= buf.len(),
        buf.subrange(lo, mid) == a,
        buf.subrange(mid, hi) == b,
    ensures
        buf.subrange(lo, hi) == a + b,
{
    assert(buf.subrange(lo, hi) =~= a + b);
}

/// A region known to be a concatenation splits at the first part's length.
proof fn lemma_take_part(buf: Seq<u8>, lo: int, hi: int, a: Seq<u8>, b: Seq<u8>)
    requires
        0 <= lo <= hi <= buf.len(),
        buf.subrange(lo, hi) == a + b,
    ensures
        buf.subrange(lo, lo + a.len()) == a,
        buf.subrange(lo + a.len(), hi) == b,
{
    assert((a + b).len() == hi - lo);
    assert forall|i: int| 0 <= i < a.len() implies buf[lo + i] == a[i] by {
        assert(buf.subrange(lo, hi)[i] == a[i]);
    }
    assert forall|j: int| 0 <= j < b.len() implies buf[lo + a.len() + j] == b[j] by {
        assert(buf.subrange(lo, hi)[a.len() + j] == b[j]);
    }
    assert(buf.subrange(lo, lo + a.len()) =~= a);
    assert(buf.subrange(lo + a.len(), hi) =~= b);
}

/// Equal sign-and-magnitude runs denote equal values.
proof fn lemma_sign_mag_inj(a: i64, b: i64)
    requires
        sign_mag(a) == sign_mag(b),
    ensures
        a == b,
{
    lemma_pow10_consts();
    lemma_digits_val(abs_i64(a), 19);
    lemma_digits_val(abs_i64(b), 19);
    lemma_small_mod(abs_i64(a), pow10(19));
    lemma_small_mod(abs_i64(b), pow10(19));
    assert(sign_mag(a)[0] == (if a < 0 { SIGN_NEG } else { SIGN_POS }));
    assert(sign_mag(b)[0] == (if b < 0 { SIGN_NEG } else { SIGN_POS }));
    assert((a < 0) == (b < 0));
    assert(sign_mag(a).subrange(1, 20) =~= spec_digits(abs_i64(a), 19));
    assert(sign_mag(b).subrange(1, 20) =~= spec_digits(abs_i64(b), 19));
    assert(spec_digits(abs_i64(a), 19) == spec_digits(abs_i64(b), 19));
    assert(dec_val(spec_digits(abs_i64(a), 19)) == abs_i64(a));
    assert(dec_val(spec_digits(abs_i64(b), 19)) == abs_i64(b));
    assert(abs_i64(a) == abs_i64(b));
    if a < 0 {
        assert(a as int == -(abs_i64(a) as int));
        assert(b as int == -(abs_i64(b) as int));
    } else {
        assert(a as int == abs_i64(a) as int);
        assert(b as int == abs_i64(b) as int);
    }
}

fn read_tag(buf: &[u8], pos: usize, tag: u8) -> (r: bool)
    ensures
        r == (pos < buf@.len() && buf@[pos as int] == tag),
{
    pos < buf.len() && buf[pos] == tag
}

/// Twenty digits as an unsigned value.
fn read_u64_digits(buf: &[u8], pos: usize) -> (r: Option<u64>)
    ensures
        match r {
            Some(v) => {
                &&& pos + 20 <= buf@.len()
                &&& buf@.subrange(pos as int, pos + 20) == spec_digits(v as nat, 20)
                &&& v as nat == dec_val(buf@.subrange(pos as int, pos + 20))
            },
            None => pos + 20 > buf@.len() || !all_digits(buf@.subrange(pos as int, pos + 20))
                || dec_val(buf@.subrange(pos as int, pos + 20)) > u64::MAX,
        },
{
    match read_dec(buf, pos, 20) {
        None => None,
        Some(v128) => {
            if v128 > u64::MAX as u128 {
                None
            } else {
                proof {
                    lemma_val_digits(buf@.subrange(pos as int, pos + 20));
                }
                Some(v128 as u64)
            }
        },
    }
}

/// Tagged unsigned field.
fn read_u64_field(buf: &[u8], pos: usize, tag: u8) -> (r: Option<(u64, usize)>)
    ensures
        match r {
            Some((v, p2)) => {
                &&& p2 == pos + 21
                &&& pos + 21 <= buf@.len()
                &&& buf@.subrange(pos as int, pos + 21) == enc_u64(tag, v)
                &&& buf@[pos as int] == tag
                &&& dec_val(buf@.subrange(pos + 1, pos + 21)) == v as nat
            },
            None => {
                ||| pos >= buf@.len()
                ||| buf@[pos as int] != tag
                ||| pos + 21 > buf@.len()
                ||| !all_digits(buf@.subrange(pos + 1, pos + 21))
                ||| dec_val(buf@.subrange(pos + 1, pos + 21)) > u64::MAX
            },
        },
{
    if !read_tag(buf, pos, tag) {
        return None;
    }
    let _n: usize = buf.len();
    match read_u64_digits(buf, pos + 1) {
        None => None,
        Some(v) => {
            proof {
                assert(buf@.subrange(pos as int, pos + 21) =~= seq![tag] + spec_digits(
                    v as nat,
                    20,
                ));
            }
            Some((v, pos + 21))
        },
    }
}

/// Tagged 128-bit identifier: two 20-digit halves below 2^64 each.
fn read_id(buf: &[u8], pos: usize, tag: u8) -> (r: Option<(u128, usize)>)
    ensures
        match r {
            Some((v, p2)) => {
                &&& p2 == pos + 41
                &&& pos + 41 <= buf@.len()
                &&& buf@.subrange(pos as int, pos + 41) == enc_id(tag, v)
                &&& buf@[pos as int] == tag
                &&& dec_val(buf@.subrange(pos + 1, pos + 21)) == (v as nat) / (TWO64 as nat)
                &&& dec_val(buf@.subrange(pos + 21, pos + 41)) == (v as nat) % (TWO64 as nat)
            },
            None => {
                ||| pos + 41 > buf@.len()
                ||| pos >= buf@.len()
                ||| buf@[pos as int] != tag
                ||| !all_digits(buf@.subrange(pos + 1, pos + 21))
                ||| !all_digits(buf@.subrange(pos + 21, pos + 41))
                ||| dec_val(buf@.subrange(pos + 1, pos + 21)) >= TWO64 as nat
                ||| dec_val(buf@.subrange(pos + 21, pos + 41)) >= TWO64 as nat
            },
        },
{
    if !read_tag(buf, pos, tag) {
        return None;
    }
    let _n: usize = buf.len();
    let hi = match read_dec(buf, pos + 1, 20) {
        None => {
            return None;
        },
        Some(h) => h,
    };
    if hi >= TWO64 {
        return None;
    }
    let lo = match read_dec(buf, pos + 21, 20) {
        None => {
            return None;
        },
        Some(l) => l,
    };
    if lo >= TWO64 {
        return None;
    }
    let v = hi * TWO64 + lo;
    proof {
        lemma_pow10_consts();
        lemma_fundamental_div_mod_converse(v as int, TWO64 as int, hi as int, lo as int);
        lemma_val_digits(buf@.subrange(pos + 1, pos + 21));
        lemma_val_digits(buf@.subrange(pos + 21, pos + 41));
        lemma_split(
            buf@,
            pos + 1,
            pos + 21,
            pos + 41,
            spec_digits((v as nat) / (TWO64 as nat), 20),
            spec_digits((v as nat) % (TWO64 as nat), 20),
        );
        assert(buf@.subrange(pos as int, pos + 41) =~= seq![tag] + buf@.subrange(
            pos + 1,
            pos + 41,
        ));
    }
    Some((v, pos + 41))
}

/// A sign byte and 19 digits of magnitude; rejects a negative zero and
/// out-of-range magnitudes, so what it accepts is exactly `sign_mag`.
fn read_sign_mag(buf: &[u8], pos: usize) -> (r: Option<i64>)
    ensures
        match r {
            Some(v) => {
                &&& pos + 20 <= buf@.len()
                &&& buf@.subrange(pos as int, pos + 20) == sign_mag(v)
                &&& buf@[pos as int] == (if v < 0 { SIGN_NEG } else { SIGN_POS })
                &&& dec_val(buf@.subrange(pos + 1, pos + 20)) == abs_i64(v)
            },
            None => {
                ||| pos + 20 > buf@.len()
                ||| (buf@[pos as int] != SIGN_POS && buf@[pos as int] != SIGN_NEG)
                ||| !all_digits(buf@.subrange(pos + 1, pos + 20))
                ||| (buf@[pos as int] == SIGN_POS && dec_val(buf@.subrange(pos + 1, pos + 20))
                    > i64::MAX)
                ||| (buf@[pos as int] == SIGN_NEG && (dec_val(buf@.subrange(pos + 1, pos + 20))
                    == 0 || dec_val(buf@.subrange(pos + 1, pos + 20)) > 0x8000_0000_0000_0000))
            },
        },
{
    if pos >= buf.len() {
        return None;
    }
    let sgn = buf[pos];
    if sgn != SIGN_POS && sgn != SIGN_NEG {
        return None;
    }
    let mag = match read_dec(buf, pos + 1, 19) {
        None => {
            return None;
        },
        Some(m) => m,
    };
    proof {
        lemma_val_digits(buf@.subrange(pos + 1, pos + 20));
    }
    if sgn == SIGN_POS {
        if mag > i64::MAX as u128 {
            return None;
        }
        let v = mag as i64;
        proof {
            assert(buf@.subrange(pos as int, pos + 20) =~= sign_mag(v));
        }
        Some(v)
    } else {
        if mag == 0 || mag > 0x8000_0000_0000_0000u128 {
            return None;
        }
        let v = (-(mag as i128)) as i64;
        proof {
            assert(buf@.subrange(pos as int, pos + 20) =~= sign_mag(v));
        }
        Some(v)
    }
}

/// Tagged signed field.
fn read_i64_field(buf: &[u8], pos: usize, tag: u8) -> (r: Option<(i64, usize)>)
    ensures
        match r {
            Some((v, p2)) => {
                &&& p2 == pos + 21
                &&& pos + 21 <= buf@.len()
                &&& buf@.subrange(pos as int, pos + 21) == enc_i64(tag, v)
                &&& buf@.subrange(pos + 1, pos + 21) == sign_mag(v)
                &&& buf@[pos as int] == tag
            },
            None => {
                ||| pos >= buf@.len()
                ||| buf@[pos as int] != tag
                ||| pos + 21 > buf@.len()
                ||| (buf@[pos + 1] != SIGN_POS && buf@[pos + 1] != SIGN_NEG)
                ||| !all_digits(buf@.subrange(pos + 2, pos + 21))
                ||| (buf@[pos + 1] == SIGN_POS && dec_val(buf@.subrange(pos + 2, pos + 21))
                    > i64::MAX)
                ||| (buf@[pos + 1] == SIGN_NEG && (dec_val(buf@.subrange(pos + 2, pos + 21))
                    == 0 || dec_val(buf@.subrange(pos + 2, pos + 21)) > 0x8000_0000_0000_0000))
            },
        },
{
    if !read_tag(buf, pos, tag) {
        return None;
    }
    let _n: usize = buf.len();
    match read_sign_mag(buf, pos + 1) {
        None => None,
        Some(v) => {
            proof {
                assert(buf@.subrange(pos as int, pos + 21) =~= seq![tag] + sign_mag(v));
            }
            Some((v, pos + 21))
        },
    }
}

fn copy_range(buf: &[u8], from: usize, to: usize) -> (v: Vec<u8>)
    requires
        from <= to <= buf@.len(),
    ensures
        v@ == buf@.subrange(from as int, to as int),
{
    let mut v: Vec<u8> = Vec::new();
    let mut j = from;
    while j < to
        invariant
            from <= j <= to <= buf@.len(),
            v@ == buf@.subrange(from as int, j as int),
        decreases to - j,
    {
        v.push(buf[j]);
        proof {
            assert(buf@.subrange(from as int, j + 1) =~= buf@.subrange(from as int, j as int).push(
                buf@[j as int],
            ));
        }
        j = j + 1;
    }
    v
}

/// Tagged byte string: eight digits of length, then that many bytes.
fn read_bytes_field(buf: &[u8], pos: usize, tag: u8) -> (r: Option<(Vec<u8>, usize)>)
    ensures
        match r {
            Some((v, p2)) => {
                &&& v@.len() <= MAX_FIELD
                &&& p2 == pos + 9 + v@.len()
                &&& p2 <= buf@.len()
                &&& buf@.subrange(pos as int, p2 as int) == enc_bytes(tag, v@)
                &&& buf@[pos as int] == tag
                &&& dec_val(buf@.subrange(pos + 1, pos + 9)) == v@.len()
                &&& v@ == buf@.subrange(pos + 9, p2 as int)
            },
            None => {
                ||| pos >= buf@.len()
                ||| buf@[pos as int] != tag
                ||| pos + 9 > buf@.len()
                ||| !all_digits(buf@.subrange(pos + 1, pos + 9))
                ||| pos + 9 + dec_val(buf@.subrange(pos + 1, pos + 9)) > buf@.len()
            },
        },
{
    if !read_tag(buf, pos, tag) {
        return None;
    }
    let _n: usize = buf.len();
    let l128 = match read_dec(buf, pos + 1, 8) {
        None => {
            return None;
        },
        Some(l) => l,
    };
    proof {
        lemma_pow10_consts();
        lemma_val_digits(buf@.subrange(pos + 1, pos + 9));
    }
    let l = l128 as usize;
    if l > buf.len() - (pos + 9) {
        return None;
    }
    let end = pos + 9 + l;
    let v = copy_range(buf, pos + 9, end);
    proof {
        assert(buf@.subrange(pos as int, end as int) =~= enc_bytes(tag, v@));
    }
    Some((v, end))
}

/// The change pair: an absence mark, or previous price and exact change.
fn read_change(buf: &[u8], pos: usize) -> (r: Option<((Option<u64>, Option<Pct>), usize)>)
    ensures
        match r {
            Some(((prev, pct), p2)) => {
                &&& p2 <= buf@.len()
                &&& buf@.subrange(pos as int, p2 as int) == enc_change(prev, pct)
                &&& buf@[pos as int] == TAG_CHANGE
                &&& (prev is Some <==> pct is Some)
                &&& match (prev, pct) {
                    (Some(p), Some(c)) => {
                        &&& p2 == pos + 62
                        &&& buf@[pos + 1] == MARK_PRESENT
                        &&& dec_val(buf@.subrange(pos + 2, pos + 22)) == p as nat
                        &&& buf@.subrange(pos + 22, pos + 42) == sign_mag(c.num)
                        &&& dec_val(buf@.subrange(pos + 42, pos + 62)) == c.den as nat
                    },
                    _ => p2 == pos + 2 && buf@[pos + 1] == MARK_ABSENT,
                }
            },
            None => {
                ||| pos + 2 > buf@.len()
                ||| buf@[pos as int] != TAG_CHANGE
                ||| (buf@[pos + 1] != MARK_ABSENT && buf@[pos + 1] != MARK_PRESENT)
                ||| (buf@[pos + 1] == MARK_PRESENT && {
                    ||| pos + 62 > buf@.len()
                    ||| !all_digits(buf@.subrange(pos + 2, pos + 22))
                    ||| dec_val(buf@.subrange(pos + 2, pos + 22)) > u64::MAX
                    ||| (buf@[pos + 22] != SIGN_POS && buf@[pos + 22] != SIGN_NEG)
                    ||| !all_digits(buf@.subrange(pos + 23, pos + 42))
                    ||| (buf@[pos + 22] == SIGN_POS && dec_val(buf@.subrange(pos + 23, pos + 42))
                        > i64::MAX)
                    ||| (buf@[pos + 22] == SIGN_NEG && (dec_val(
                        buf@.subrange(pos + 23, pos + 42),
                    ) == 0 || dec_val(buf@.subrange(pos + 23, pos + 42)) > 0x8000_0000_0000_0000))
                    ||| !all_digits(buf@.subrange(pos + 42, pos + 62))
                    ||| dec_val(buf@.subrange(pos + 42, pos + 62)) > u64::MAX
                })
            },
        },
{
    if !read_tag(buf, pos, TAG_CHANGE) {
        return None;
    }
    if buf.len() - pos < 2 {
        return None;
    }
    let mark = buf[pos + 1];
    if mark == MARK_ABSENT {
        proof {
            assert(buf@.subrange(pos as int, pos + 2) =~= enc_change(
                None::<u64>,
                None::<Pct>,
            ));
        }
        return Some(((None, None), pos + 2));
    }
    if mark != MARK_PRESENT {
        return None;
    }
    let p = match read_u64_digits(buf, pos + 2) {
        None => {
            return None;
        },
        Some(p) => p,
    };
    let num = match read_sign_mag(buf, pos + 22) {
        None => {
            return None;
        },
        Some(n) => n,
    };
    let den = match read_u64_digits(buf, pos + 42) {
        None => {
            return None;
        },
        Some(d) => d,
    };
    let c = Pct { num, den };
    proof {
        assert(buf@.subrange(pos as int, pos + 62) =~= enc_change(Some(p), Some(c)));
    }
    Some(((Some(p), Some(c)), pos + 62))
}

/// A one-byte region pins the byte under it.
proof fn lemma_single(buf: Seq<u8>, i: int, v: u8)
    requires
        0 <= i < buf.len(),
        buf.subrange(i, i + 1) == seq![v],
    ensures
        buf[i] == v,
{
    assert(buf[i] == buf.subrange(i, i + 1)[0]);
}

/// Everything a reader checks about a region that holds `sign_mag(v)`.
proof fn lemma_sign_mag_facts(buf: Seq<u8>, pos: int, v: i64)
    requires
        0 <= pos,
        pos + 20 <= buf.len(),
        buf.subrange(pos, pos + 20) == sign_mag(v),
    ensures
        buf[pos] == (if v < 0 { SIGN_NEG } else { SIGN_POS }),
        all_digits(buf.subrange(pos + 1, pos + 20)),
        dec_val(buf.subrange(pos + 1, pos + 20)) == abs_i64(v),
        abs_i64(v) <= 0x8000_0000_0000_0000,
        v >= 0 ==> abs_i64(v) <= i64::MAX,
        v < 0 ==> abs_i64(v) >= 1,
{
    lemma_pow10_consts();
    lemma_digits_val(abs_i64(v), 19);
    lemma_small_mod(abs_i64(v), pow10(19));
    lemma_take_part(
        buf,
        pos,
        pos + 20,
        seq![if v < 0 { SIGN_NEG } else { SIGN_POS }],
        spec_digits(abs_i64(v), 19),
    );
    lemma_single(buf, pos, if v < 0 { SIGN_NEG } else { SIGN_POS });
}

/// Everything a reader checks about a region that holds `enc_id(tag, n)`.
proof fn lemma_id_facts(buf: Seq<u8>, pos: int, tag: u8, n: u128)
    requires
        0 <= pos,
        pos + 41 <= buf.len(),
        buf.subrange(pos, pos + 41) == enc_id(tag, n),
    ensures
        buf[pos] == tag,
        all_digits(buf.subrange(pos + 1, pos + 21)),
        all_digits(buf.subrange(pos + 21, pos + 41)),
        dec_val(buf.subrange(pos + 1, pos + 21)) == (n as nat) / (TWO64 as nat),
        dec_val(buf.subrange(pos + 21, pos + 41)) == (n as nat) % (TWO64 as nat),
        (n as nat) / (TWO64 as nat) < TWO64 as nat,
        (n as nat) % (TWO64 as nat) < TWO64 as nat,
{
    lemma_pow10_consts();
    let hi = (n as nat) / (TWO64 as nat);
    let lo = (n as nat) % (TWO64 as nat);
    lemma_multiply_divide_lt(n as int, TWO64 as int, TWO64 as int);
    lemma_mod_bound(n as int, TWO64 as int);
    lemma_digits_val(hi, 20);
    lemma_digits_val(lo, 20);
    lemma_small_mod(hi, pow10(20));
    lemma_small_mod(lo, pow10(20));
    lemma_take_part(buf, pos, pos + 41, seq![tag] + spec_digits(hi, 20), spec_digits(lo, 20));
    lemma_take_part(buf, pos, pos + 21, seq![tag], spec_digits(hi, 20));
    lemma_single(buf, pos, tag);
}

/// Everything a reader checks about a region that holds `enc_bytes(tag, s)`.
proof fn lemma_bytes_facts(buf: Seq<u8>, pos: int, tag: u8, s: Seq<u8>)
    requires
        0 <= pos,
        pos + 9 + s.len() <= buf.len(),
        s.len() <= MAX_FIELD,
        buf.subrange(pos, pos + 9 + s.len()) == enc_bytes(tag, s),
    ensures
        buf[pos] == tag,
        all_digits(buf.subrange(pos + 1, pos + 9)),
        dec_val(buf.subrange(pos + 1, pos + 9)) == s.len(),
        buf.subrange(pos + 9, pos + 9 + s.len()) == s,
{
    lemma_pow10_consts();
    lemma_digits_val(s.len(), 8);
    lemma_small_mod(s.len(), pow10(8));
    lemma_take_part(buf, pos, pos + 9 + s.len(), seq![tag] + spec_digits(s.len(), 8), s);
    lemma_take_part(buf, pos, pos + 9, seq![tag], spec_digits(s.len(), 8));
    lemma_single(buf, pos, tag);
}

/// Everything a reader checks about a region that holds a 20-digit numeral.
proof fn lemma_u64_facts(buf: Seq<u8>, pos: int, n: u64)
    requires
        0 <= pos,
        pos + 20 <= buf.len(),
        buf.subrange(pos, pos + 20) == spec_digits(n as nat, 20),
    ensures
        all_digits(buf.subrange(pos, pos + 20)),
        dec_val(buf.subrange(pos, pos + 20)) == n as nat,
{
    lemma_pow10_consts();
    lemma_digits_val(n as nat, 20);
    lemma_small_mod(n as nat, pow10(20));
}

/// Where every field of an encoded tick lies in the buffer.
proof fn lemma_tick_anatomy(buf: Seq<u8>, t: TickV)
    requires
        tick_valid(t),
        buf == spec_enc_tick(t),
    ensures
        ({
            let sl = t.symbol.len() as int;
            let ol = t.source.len() as int;
            &&& buf.len() == 123 + sl + ol
            &&& buf[0] == KIND_TICK
            &&& buf[1] == TAG_EVENT_ID
            &&& all_digits(buf.subrange(2, 22))
            &&& all_digits(buf.subrange(22, 42))
            &&& dec_val(buf.subrange(2, 22)) == (t.event_id as nat) / (TWO64 as nat)
            &&& dec_val(buf.subrange(22, 42)) == (t.event_id as nat) % (TWO64 as nat)
            &&& (t.event_id as nat) / (TWO64 as nat) < TWO64 as nat
            &&& (t.event_id as nat) % (TWO64 as nat) < TWO64 as nat
            &&& buf[42] == TAG_SYMBOL
            &&& all_digits(buf.subrange(43, 51))
            &&& dec_val(buf.subrange(43, 51)) == sl
            &&& buf.subrange(51, 51 + sl) == t.symbol
            &&& buf[51 + sl] == TAG_PRICE
            &&& buf.subrange(52 + sl, 72 + sl) == spec_digits(t.price as nat, 20)
            &&& all_digits(buf.subrange(52 + sl, 72 + sl))
            &&& dec_val(buf.subrange(52 + sl, 72 + sl)) == t.price as nat
            &&& buf[72 + sl] == TAG_VOLUME
            &&& buf.subrange(73 + sl, 93 + sl) == sign_mag(t.volume)
            &&& buf[93 + sl] == TAG_TS
            &&& buf.subrange(94 + sl, 114 + sl) == sign_mag(t.ts)
            &&& buf[114 + sl] == TAG_SOURCE
            &&& all_digits(buf.subrange(115 + sl, 123 + sl))
            &&& dec_val(buf.subrange(115 + sl, 123 + sl)) == ol
            &&& buf.subrange(123 + sl, 123 + sl + ol) == t.source
        }),
{
    let sl = t.symbol.len() as int;
    let ol = t.source.len() as int;
    lemma_pow10_consts();
    lemma_multiply_divide_lt(t.event_id as int, TWO64 as int, TWO64 as int);
    lemma_mod_bound(t.event_id as int, TWO64 as int);
    lemma_digits_val((t.event_id as nat) / (TWO64 as nat), 20);
    lemma_digits_val((t.event_id as nat) % (TWO64 as nat), 20);
    lemma_digits_val(t.symbol.len(), 8);
    lemma_digits_val(t.price as nat, 20);
    lemma_digits_val(abs_i64(t.volume), 19);
    lemma_digits_val(abs_i64(t.ts), 19);
    lemma_digits_val(t.source.len(), 8);
    let p1 = enc_id(TAG_EVENT_ID, t.event_id);
    let p2 = enc_bytes(TAG_SYMBOL, t.symbol);
    let p3 = enc_u64(TAG_PRICE, t.price);
    let p4 = enc_i64(TAG_VOLUME, t.volume);
    let p5 = enc_i64(TAG_TS, t.ts);
    let p6 = enc_bytes(TAG_SOURCE, t.source);
    let c1 = seq![KIND_TICK] + p1;
    let c2 = c1 + p2;
    let c3 = c2 + p3;
    let c4 = c3 + p4;
    let c5 = c4 + p5;
    assert(buf.len() == 123 + sl + ol);
    assert(buf.subrange(0, buf.len() as int) =~= buf);
    lemma_take_part(buf, 0, 123 + sl + ol, c5, p6);
    lemma_take_part(buf, 0, 114 + sl, c4, p5);
    lemma_take_part(buf, 0, 93 + sl, c3, p4);
    lemma_take_part(buf, 0, 72 + sl, c2, p3);
    lemma_take_part(buf, 0, 51 + sl, c1, p2);
    lemma_take_part(buf, 0, 42, seq![KIND_TICK], p1);
    lemma_single(buf, 0, KIND_TICK);
    lemma_id_facts(buf, 1, TAG_EVENT_ID, t.event_id);
    lemma_bytes_facts(buf, 42, TAG_SYMBOL, t.symbol);
    lemma_take_part(buf, 51 + sl, 72 + sl, seq![TAG_PRICE], spec_digits(t.price as nat, 20));
    lemma_single(buf, 51 + sl, TAG_PRICE);
    lemma_u64_facts(buf, 52 + sl, t.price);
    lemma_take_part(buf, 72 + sl, 93 + sl, seq![TAG_VOLUME], sign_mag(t.volume));
    lemma_single(buf, 72 + sl, TAG_VOLUME);
    lemma_take_part(buf, 93 + sl, 114 + sl, seq![TAG_TS], sign_mag(t.ts));
    lemma_single(buf, 93 + sl, TAG_TS);
    lemma_bytes_facts(buf, 114 + sl, TAG_SOURCE, t.source);
}

/// Decodes a tick. Accepts exactly the encodings of valid ticks: decoding
/// an encoded tick gives back that tick (the round trip), and a `Some`
/// result always re-encodes to the very input.
#[verifier::rlimit(100)]
pub fn decode_tick(buf: &[u8]) -> (r: Option<Tick>)
    ensures
        (match r {
            Some(tk) => tick_valid(tk@) && buf@ == spec_enc_tick(tk@),
            None => true,
        }),
        forall|t: TickV|
            tick_valid(t) && buf@ == #[trigger] spec_enc_tick(t) ==> (r matches Some(tk)
                && tk@ == t),
{
    let n: usize = buf.len();
    if !read_tag(buf, 0, KIND_TICK) {
        proof {
            assert forall|t: TickV| !(tick_valid(t) && buf@ == spec_enc_tick(t)) by {
                if tick_valid(t) && buf@ == spec_enc_tick(t) {
                    lemma_tick_anatomy(buf@, t);
                }
            }
        }
        return None;
    }
    let (event_id, pa) = match read_id(buf, 1, TAG_EVENT_ID) {
        None => {
            proof {
                assert forall|t: TickV| !(tick_valid(t) && buf@ == spec_enc_tick(t)) by {
                    if tick_valid(t) && buf@ == spec_enc_tick(t) {
                        lemma_tick_anatomy(buf@, t);
                    }
                }
            }
            return None;
        },
        Some(x) => x,
    };
    let (symbol, pb) = match read_bytes_field(buf, pa, TAG_SYMBOL) {
        None => {
            proof {
                assert forall|t: TickV| !(tick_valid(t) && buf@ == spec_enc_tick(t)) by {
                    if tick_valid(t) && buf@ == spec_enc_tick(t) {
                        lemma_tick_anatomy(buf@, t);
                    }
                }
            }
            return None;
        },
        Some(x) => x,
    };
    let (price, pc) = match read_u64_field(buf, pb, TAG_PRICE) {
        None => {
            proof {
                assert forall|t: TickV| !(tick_valid(t) && buf@ == spec_enc_tick(t)) by {
                    if tick_valid(t) && buf@ == spec_enc_tick(t) {
                        lemma_tick_anatomy(buf@, t);
                    }
                }
            }
            return None;
        },
        Some(x) => x,
    };
    if price < 1 || price > MAX_PRICE {
        proof {
            assert forall|t: TickV| !(tick_valid(t) && buf@ == spec_enc_tick(t)) by {
                if tick_valid(t) && buf@ == spec_enc_tick(t) {
                    lemma_tick_anatomy(buf@, t);
                }
            }
        }
        return None;
    }
    let (volume, pd) = match read_i64_field(buf, pc, TAG_VOLUME) {
        None => {
            proof {
                assert forall|t: TickV| !(tick_valid(t) && buf@ == spec_enc_tick(t)) by {
                    if tick_valid(t) && buf@ == spec_enc_tick(t) {
                        lemma_tick_anatomy(buf@, t);
                        lemma_sign_mag_facts(buf@, 73 + t.symbol.len() as int, t.volume);
                    }
                }
            }
            return None;
        },
        Some(x) => x,
    };
    let (ts, pe) = match read_i64_field(buf, pd, TAG_TS) {
        None => {
            proof {
                assert forall|t: TickV| !(tick_valid(t) && buf@ == spec_enc_tick(t)) by {
                    if tick_valid(t) && buf@ == spec_enc_tick(t) {
                        lemma_tick_anatomy(buf@, t);
                        lemma_sign_mag_facts(buf@, 94 + t.symbol.len() as int, t.ts);
                    }
                }
            }
            return None;
        },
        Some(x) => x,
    };
    let (source, pf) = match read_bytes_field(buf, pe, TAG_SOURCE) {
        None => {
            proof {
                assert forall|t: TickV| !(tick_valid(t) && buf@ == spec_enc_tick(t)) by {
                    if tick_valid(t) && buf@ == spec_enc_tick(t) {
                        lemma_tick_anatomy(buf@, t);
                    }
                }
            }
            return None;
        },
        Some(x) => x,
    };
    if pf != n {
        proof {
            assert forall|t: TickV| !(tick_valid(t) && buf@ == spec_enc_tick(t)) by {
                if tick_valid(t) && buf@ == spec_enc_tick(t) {
                    lemma_tick_anatomy(buf@, t);
                }
            }
        }
        return None;
    }
    let tk = Tick { event_id, symbol, price, volume, ts, source };
    proof {
        // the input is the encoding of what was parsed
        assert(buf@.subrange(0, 1) =~= seq![KIND_TICK]);
        lemma_split(buf@, 0, 1, 42, seq![KIND_TICK], enc_id(TAG_EVENT_ID, event_id));
        lemma_split(
            buf@,
            0,
            42,
            pb as int,
            seq![KIND_TICK] + enc_id(TAG_EVENT_ID, event_id),
            enc_bytes(TAG_SYMBOL, tk.symbol@),
        );
        lemma_split(
            buf@,
            0,
            pb as int,
            pc as int,
            seq![KIND_TICK] + enc_id(TAG_EVENT_ID, event_id) + enc_bytes(TAG_SYMBOL, tk.symbol@),
            enc_u64(TAG_PRICE, price),
        );
        lemma_split(
            buf@,
            0,
            pc as int,
            pd as int,
            seq![KIND_TICK] + enc_id(TAG_EVENT_ID, event_id) + enc_bytes(TAG_SYMBOL, tk.symbol@)
                + enc_u64(TAG_PRICE, price),
            enc_i64(TAG_VOLUME, volume),
        );
        lemma_split(
            buf@,
            0,
            pd as int,
            pe as int,
            seq![KIND_TICK] + enc_id(TAG_EVENT_ID, event_id) + enc_bytes(TAG_SYMBOL, tk.symbol@)
                + enc_u64(TAG_PRICE, price) + enc_i64(TAG_VOLUME, volume),
            enc_i64(TAG_TS, ts),
        );
        lemma_split(
            buf@,
            0,
            pe as int,
            pf as int,
            seq![KIND_TICK] + enc_id(TAG_EVENT_ID, event_id) + enc_bytes(TAG_SYMBOL, tk.symbol@)
                + enc_u64(TAG_PRICE, price) + enc_i64(TAG_VOLUME, volume) + enc_i64(TAG_TS, ts),
            enc_bytes(TAG_SOURCE, tk.source@),
        );
        assert(buf@.subrange(0, n as int) =~= buf@);
        assert(buf@ == spec_enc_tick(tk@));
        // and every valid tick that encodes to the input is what was parsed
        assert forall|t: TickV|
            tick_valid(t) && buf@ == spec_enc_tick(t) implies (Some(tk) matches Some(tk2)
            && tk2@ == t) by {
            lemma_tick_anatomy(buf@, t);
            lemma_fundamental_div_mod(t.event_id as int, TWO64 as int);
            assert(tk@.symbol =~= t.symbol);
            lemma_sign_mag_inj(volume, t.volume);
            lemma_sign_mag_inj(ts, t.ts);
            assert(tk@.source =~= t.source);
        }
    }
    Some(tk)
}

/// Where every field of an encoded signal lies in the buffer. `cw` is the
/// width of the change pair: two bytes when absent, sixty-two when present.
proof fn lemma_signal_anatomy(buf: Seq<u8>, s: SignalV)
    requires
        signal_valid(s),
        buf == spec_enc_signal(s),
    ensures
        ({
            let sl = s.symbol.len() as int;
            let ol = s.source.len() as int;
            let cw: int = if s.prev_price is Some { 62 } else { 2 };
            &&& buf.len() == 102 + sl + ol + cw
            &&& buf[0] == KIND_SIGNAL
            &&& buf[1] == TAG_EVENT_ID
            &&& all_digits(buf.subrange(2, 22))
            &&& all_digits(buf.subrange(22, 42))
            &&& dec_val(buf.subrange(2, 22)) == (s.event_id as nat) / (TWO64 as nat)
            &&& dec_val(buf.subrange(22, 42)) == (s.event_id as nat) % (TWO64 as nat)
            &&& (s.event_id as nat) / (TWO64 as nat) < TWO64 as nat
            &&& (s.event_id as nat) % (TWO64 as nat) < TWO64 as nat
            &&& buf[42] == TAG_SYMBOL
            &&& all_digits(buf.subrange(43, 51))
            &&& dec_val(buf.subrange(43, 51)) == sl
            &&& buf.subrange(51, 51 + sl) == s.symbol
            &&& buf[51 + sl] == TAG_PRICE
            &&& all_digits(buf.subrange(52 + sl, 72 + sl))
            &&& dec_val(buf.subrange(52 + sl, 72 + sl)) == s.price as nat
            &&& buf[72 + sl] == TAG_CHANGE
            &&& match (s.prev_price, s.pct_change) {
                (Some(p), Some(c)) => {
                    &&& buf[73 + sl] == MARK_PRESENT
                    &&& all_digits(buf.subrange(74 + sl, 94 + sl))
                    &&& dec_val(buf.subrange(74 + sl, 94 + sl)) == p as nat
                    &&& buf.subrange(94 + sl, 114 + sl) == sign_mag(c.num)
                    &&& all_digits(buf.subrange(114 + sl, 134 + sl))
                    &&& dec_val(buf.subrange(114 + sl, 134 + sl)) == c.den as nat
                },
                _ => buf[73 + sl] == MARK_ABSENT,
            }
            &&& buf[72 + sl + cw] == TAG_TS
            &&& buf.subrange(73 + sl + cw, 93 + sl + cw) == sign_mag(s.ts)
            &&& buf[93 + sl + cw] == TAG_SOURCE
            &&& all_digits(buf.subrange(94 + sl + cw, 102 + sl + cw))
            &&& dec_val(buf.subrange(94 + sl + cw, 102 + sl + cw)) == ol
            &&& buf.subrange(102 + sl + cw, 102 + sl + cw + ol) == s.source
        }),
{
    let sl = s.symbol.len() as int;
    let ol = s.source.len() as int;
    let cw: int = if s.prev_price is Some { 62 } else { 2 };
    lemma_pow10_consts();
    lemma_multiply_divide_lt(s.event_id as int, TWO64 as int, TWO64 as int);
    lemma_mod_bound(s.event_id as int, TWO64 as int);
    lemma_digits_val((s.event_id as nat) / (TWO64 as nat), 20);
    lemma_digits_val((s.event_id as nat) % (TWO64 as nat), 20);
    lemma_digits_val(s.symbol.len(), 8);
    lemma_digits_val(s.price as nat, 20);
    lemma_small_mod(s.price as nat, pow10(20));
    lemma_digits_val(abs_i64(s.ts), 19);
    lemma_digits_val(s.source.len(), 8);
    lemma_small_mod(s.symbol.len(), pow10(8));
    lemma_small_mod(s.source.len(), pow10(8));
    let p1 = enc_id(TAG_EVENT_ID, s.event_id);
    let p2 = enc_bytes(TAG_SYMBOL, s.symbol);
    let p3 = enc_u64(TAG_PRICE, s.price);
    let p4 = enc_change(s.prev_price, s.pct_change);
    let p5 = enc_i64(TAG_TS, s.ts);
    let p6 = enc_bytes(TAG_SOURCE, s.source);
    if s.prev_price is Some {
        let p = s.prev_price->0;
        let c = s.pct_change->0;
        lemma_digits_val(p as nat, 20);
        lemma_small_mod(p as nat, pow10(20));
        lemma_digits_val(abs_i64(c.num), 19);
        lemma_digits_val(c.den as nat, 20);
        lemma_small_mod(c.den as nat, pow10(20));
        assert(p4.len() == 62);
    } else {
        assert(p4.len() == 2);
    }
    let c1 = seq![KIND_SIGNAL] + p1;
    let c2 = c1 + p2;
    let c3 = c2 + p3;
    let c4 = c3 + p4;
    let c5 = c4 + p5;
    assert(buf.len() == 102 + sl + ol + cw);
    assert(buf.subrange(0, buf.len() as int) =~= buf);
    lemma_take_part(buf, 0, 102 + sl + ol + cw, c5, p6);
    lemma_take_part(buf, 0, 93 + sl + cw, c4, p5);
    lemma_take_part(buf, 0, 72 + sl + cw, c3, p4);
    lemma_take_part(buf, 0, 72 + sl, c2, p3);
    lemma_take_part(buf, 0, 51 + sl, c1, p2);
    lemma_take_part(buf, 0, 42, seq![KIND_SIGNAL], p1);
    lemma_single(buf, 0, KIND_SIGNAL);
    lemma_id_facts(buf, 1, TAG_EVENT_ID, s.event_id);
    lemma_bytes_facts(buf, 42, TAG_SYMBOL, s.symbol);
    lemma_take_part(buf, 51 + sl, 72 + sl, seq![TAG_PRICE], spec_digits(s.price as nat, 20));
    lemma_single(buf, 51 + sl, TAG_PRICE);
    match (s.prev_price, s.pct_change) {
        (Some(p), Some(c)) => {
            lemma_take_part(
                buf,
                72 + sl,
                134 + sl,
                seq![TAG_CHANGE, MARK_PRESENT] + spec_digits(p as nat, 20) + sign_mag(c.num),
                spec_digits(c.den as nat, 20),
            );
            lemma_take_part(
                buf,
                72 + sl,
                114 + sl,
                seq![TAG_CHANGE, MARK_PRESENT] + spec_digits(p as nat, 20),
                sign_mag(c.num),
            );
            lemma_take_part(
                buf,
                72 + sl,
                94 + sl,
                seq![TAG_CHANGE, MARK_PRESENT],
                spec_digits(p as nat, 20),
            );
            assert(buf[72 + sl] == buf.subrange(72 + sl, 74 + sl)[0]);
            assert(buf[73 + sl] == buf.subrange(72 + sl, 74 + sl)[1]);
        },
        _ => {
            assert(buf.subrange(72 + sl, 74 + sl) == p4);
            assert(buf[72 + sl] == buf.subrange(72 + sl, 74 + sl)[0]);
            assert(buf[73 + sl] == buf.subrange(72 + sl, 74 + sl)[1]);
        },
    }
    lemma_take_part(buf, 72 + sl + cw, 93 + sl + cw, seq![TAG_TS], sign_mag(s.ts));
    lemma_single(buf, 72 + sl + cw, TAG_TS);
    lemma_bytes_facts(buf, 93 + sl + cw, TAG_SOURCE, s.source);
}

/// Decodes a signal. Accepts exactly the encodings of valid signals.
#[verifier::rlimit(100)]
pub fn decode_signal(buf: &[u8]) -> (r: Option<Signal>)
    ensures
        (match r {
            Some(sg) => signal_valid(sg@) && buf@ == spec_enc_signal(sg@),
            None => true,
        }),
        forall|s: SignalV|
            signal_valid(s) && buf@ == #[trigger] spec_enc_signal(s) ==> (r matches Some(sg)
                && sg@ == s),
{
    let n: usize = buf.len();
    if !read_tag(buf, 0, KIND_SIGNAL) {
        proof {
            assert forall|s: SignalV| !(signal_valid(s) && buf@ == spec_enc_signal(s)) by {
                if signal_valid(s) && buf@ == spec_enc_signal(s) {
                    lemma_signal_anatomy(buf@, s);
                }
            }
        }
        return None;
    }
    let (event_id, pa) = match read_id(buf, 1, TAG_EVENT_ID) {
        None => {
            proof {
                assert forall|s: SignalV| !(signal_valid(s) && buf@ == spec_enc_signal(s)) by {
                    if signal_valid(s) && buf@ == spec_enc_signal(s) {
                        lemma_signal_anatomy(buf@, s);
                    }
                }
            }
            return None;
        },
        Some(x) => x,
    };
    let (symbol, pb) = match read_bytes_field(buf, pa, TAG_SYMBOL) {
        None => {
            proof {
                assert forall|s: SignalV| !(signal_valid(s) && buf@ == spec_enc_signal(s)) by {
                    if signal_valid(s) && buf@ == spec_enc_signal(s) {
                        lemma_signal_anatomy(buf@, s);
                    }
                }
            }
            return None;
        },
        Some(x) => x,
    };
    let (price, pc) = match read_u64_field(buf, pb, TAG_PRICE) {
        None => {
            proof {
                assert forall|s: SignalV| !(signal_valid(s) && buf@ == spec_enc_signal(s)) by {
                    if signal_valid(s) && buf@ == spec_enc_signal(s) {
                        lemma_signal_anatomy(buf@, s);
                    }
                }
            }
            return None;
        },
        Some(x) => x,
    };
    if price < 1 || price > MAX_PRICE {
        proof {
            assert forall|s: SignalV| !(signal_valid(s) && buf@ == spec_enc_signal(s)) by {
                if signal_valid(s) && buf@ == spec_enc_signal(s) {
                    lemma_signal_anatomy(buf@, s);
                }
            }
        }
        return None;
    }
    let ((prev_price, pct_change), pd) = match read_change(buf, pc) {
        None => {
            proof {
                assert forall|s: SignalV| !(signal_valid(s) && buf@ == spec_enc_signal(s)) by {
                    if signal_valid(s) && buf@ == spec_enc_signal(s) {
                        lemma_signal_anatomy(buf@, s);
                        if s.prev_price is Some {
                            lemma_sign_mag_facts(
                                buf@,
                                94 + s.symbol.len() as int,
                                s.pct_change->0.num,
                            );
                        }
                    }
                }
            }
            return None;
        },
        Some(x) => x,
    };
    let ok: bool = match (&prev_price, &pct_change) {
        (Some(p), Some(c)) => {
            *p >= 1 && *p <= MAX_PRICE && c.den == *p && (c.num as i128) == 100
                * (price as i128 - *p as i128)
        },
        _ => true,
    };
    if !ok {
        proof {
            assert forall|s: SignalV| !(signal_valid(s) && buf@ == spec_enc_signal(s)) by {
                if signal_valid(s) && buf@ == spec_enc_signal(s) {
                    lemma_signal_anatomy(buf@, s);
                    if s.prev_price is Some {
                        lemma_sign_mag_inj(pct_change->0.num, s.pct_change->0.num);
                    }
                }
            }
        }
        return None;
    }
    let (ts, pe) = match read_i64_field(buf, pd, TAG_TS) {
        None => {
            proof {
                assert forall|s: SignalV| !(signal_valid(s) && buf@ == spec_enc_signal(s)) by {
                    if signal_valid(s) && buf@ == spec_enc_signal(s) {
                        lemma_signal_anatomy(buf@, s);
                        lemma_sign_mag_facts(
                            buf@,
                            73 + s.symbol.len() + (if s.prev_price is Some { 62int } else { 2int }),
                            s.ts,
                        );
                    }
                }
            }
            return None;
        },
        Some(x) => x,
    };
    let (source, pf) = match read_bytes_field(buf, pe, TAG_SOURCE) {
        None => {
            proof {
                assert forall|s: SignalV| !(signal_valid(s) && buf@ == spec_enc_signal(s)) by {
                    if signal_valid(s) && buf@ == spec_enc_signal(s) {
                        lemma_signal_anatomy(buf@, s);
                    }
                }
            }
            return None;
        },
        Some(x) => x,
    };
    if pf != n {
        proof {
            assert forall|s: SignalV| !(signal_valid(s) && buf@ == spec_enc_signal(s)) by {
                if signal_valid(s) && buf@ == spec_enc_signal(s) {
                    lemma_signal_anatomy(buf@, s);
                }
            }
        }
        return None;
    }
    let sg = Signal { event_id, symbol, price, prev_price, pct_change, ts, source };
    proof {
        assert(buf@.subrange(0, 1) =~= seq![KIND_SIGNAL]);
        lemma_split(buf@, 0, 1, 42, seq![KIND_SIGNAL], enc_id(TAG_EVENT_ID, event_id));
        lemma_split(
            buf@,
            0,
            42,
            pb as int,
            seq![KIND_SIGNAL] + enc_id(TAG_EVENT_ID, event_id),
            enc_bytes(TAG_SYMBOL, sg.symbol@),
        );
        lemma_split(
            buf@,
            0,
            pb as int,
            pc as int,
            seq![KIND_SIGNAL] + enc_id(TAG_EVENT_ID, event_id) + enc_bytes(TAG_SYMBOL, sg.symbol@),
            enc_u64(TAG_PRICE, price),
        );
        lemma_split(
            buf@,
            0,
            pc as int,
            pd as int,
            seq![KIND_SIGNAL] + enc_id(TAG_EVENT_ID, event_id) + enc_bytes(TAG_SYMBOL, sg.symbol@)
                + enc_u64(TAG_PRICE, price),
            enc_change(prev_price, pct_change),
        );
        lemma_split(
            buf@,
            0,
            pd as int,
            pe as int,
            seq![KIND_SIGNAL] + enc_id(TAG_EVENT_ID, event_id) + enc_bytes(TAG_SYMBOL, sg.symbol@)
                + enc_u64(TAG_PRICE, price) + enc_change(prev_price, pct_change),
            enc_i64(TAG_TS, ts),
        );
        lemma_split(
            buf@,
            0,
            pe as int,
            pf as int,
            seq![KIND_SIGNAL] + enc_id(TAG_EVENT_ID, event_id) + enc_bytes(TAG_SYMBOL, sg.symbol@)
                + enc_u64(TAG_PRICE, price) + enc_change(prev_price, pct_change) + enc_i64(
                TAG_TS,
                ts,
            ),
            enc_bytes(TAG_SOURCE, sg.source@),
        );
        assert(buf@.subrange(0, n as int) =~= buf@);
        assert(buf@ == spec_enc_signal(sg@));
        assert forall|s: SignalV|
            signal_valid(s) && buf@ == spec_enc_signal(s) implies (Some(sg) matches Some(sg2)
            && sg2@ == s) by {
            lemma_signal_anatomy(buf@, s);
            lemma_fundamental_div_mod(s.event_id as int, TWO64 as int);
            assert(sg@.symbol =~= s.symbol);
            if s.prev_price is Some {
                lemma_sign_mag_inj(pct_change->0.num, s.pct_change->0.num);
            }
            lemma_sign_mag_inj(ts, s.ts);
            assert(sg@.source =~= s.source);
        }
    }
    Some(sg)
}

/// Where every field of an encoded alert lies in the buffer. `q` is the
/// offset of the percent-change field, after the two variable-length
/// fields before it.
proof fn lemma_alert_anatomy(buf: Seq<u8>, a: AlertV)
    requires
        alert_valid(a),
        buf == spec_enc_alert(a),
    ensures
        ({
            let sl = a.symbol.len() as int;
            let rl = a.rule.len() as int;
            let ol = a.source.len() as int;
            let q = 101 + sl + rl;
            &&& buf.len() == 193 + sl + rl + ol
            &&& buf[0] == KIND_ALERT
            &&& buf[1] == TAG_ALERT_ID
            &&& all_digits(buf.subrange(2, 22))
            &&& all_digits(buf.subrange(22, 42))
            &&& dec_val(buf.subrange(2, 22)) == (a.alert_id as nat) / (TWO64 as nat)
            &&& dec_val(buf.subrange(22, 42)) == (a.alert_id as nat) % (TWO64 as nat)
            &&& (a.alert_id as nat) / (TWO64 as nat) < TWO64 as nat
            &&& (a.alert_id as nat) % (TWO64 as nat) < TWO64 as nat
            &&& buf[42] == TAG_EVENT_ID
            &&& all_digits(buf.subrange(43, 63))
            &&& all_digits(buf.subrange(63, 83))
            &&& dec_val(buf.subrange(43, 63)) == (a.event_id as nat) / (TWO64 as nat)
            &&& dec_val(buf.subrange(63, 83)) == (a.event_id as nat) % (TWO64 as nat)
            &&& (a.event_id as nat) / (TWO64 as nat) < TWO64 as nat
            &&& (a.event_id as nat) % (TWO64 as nat) < TWO64 as nat
            &&& buf[83] == TAG_SYMBOL
            &&& all_digits(buf.subrange(84, 92))
            &&& dec_val(buf.subrange(84, 92)) == sl
            &&& buf.subrange(92, 92 + sl) == a.symbol
            &&& buf[92 + sl] == TAG_RULE
            &&& all_digits(buf.subrange(93 + sl, 101 + sl))
            &&& dec_val(buf.subrange(93 + sl, 101 + sl)) == rl
            &&& buf.subrange(101 + sl, 101 + sl + rl) == a.rule
            &&& buf[q] == TAG_PCT
            &&& buf.subrange(q + 1, q + 21) == sign_mag(a.pct_change.num)
            &&& all_digits(buf.subrange(q + 21, q + 41))
            &&& dec_val(buf.subrange(q + 21, q + 41)) == a.pct_change.den as nat
            &&& buf[q + 41] == TAG_PRICE
            &&& all_digits(buf.subrange(q + 42, q + 62))
            &&& dec_val(buf.subrange(q + 42, q + 62)) == a.price as nat
            &&& buf[q + 62] == TAG_TS
            &&& buf.subrange(q + 63, q + 83) == sign_mag(a.ts)
            &&& buf[q + 83] == TAG_SOURCE
            &&& all_digits(buf.subrange(q + 84, q + 92))
            &&& dec_val(buf.subrange(q + 84, q + 92)) == ol
            &&& buf.subrange(q + 92, q + 92 + ol) == a.source
        }),
{
    let sl = a.symbol.len() as int;
    let rl = a.rule.len() as int;
    let ol = a.source.len() as int;
    let q = 101 + sl + rl;
    lemma_pow10_consts();
    lemma_multiply_divide_lt(a.alert_id as int, TWO64 as int, TWO64 as int);
    lemma_mod_bound(a.alert_id as int, TWO64 as int);
    lemma_digits_val((a.alert_id as nat) / (TWO64 as nat), 20);
    lemma_digits_val((a.alert_id as nat) % (TWO64 as nat), 20);
    lemma_multiply_divide_lt(a.event_id as int, TWO64 as int, TWO64 as int);
    lemma_mod_bound(a.event_id as int, TWO64 as int);
    lemma_digits_val((a.event_id as nat) / (TWO64 as nat), 20);
    lemma_digits_val((a.event_id as nat) % (TWO64 as nat), 20);
    lemma_digits_val(a.symbol.len(), 8);
    lemma_digits_val(a.rule.len(), 8);
    lemma_digits_val(abs_i64(a.pct_change.num), 19);
    lemma_digits_val(a.pct_change.den as nat, 20);
    lemma_small_mod(a.pct_change.den as nat, pow10(20));
    lemma_digits_val(a.price as nat, 20);
    lemma_small_mod(a.price as nat, pow10(20));
    lemma_digits_val(abs_i64(a.ts), 19);
    lemma_digits_val(a.source.len(), 8);
    let p1 = enc_id(TAG_ALERT_ID, a.alert_id);
    let p2 = enc_id(TAG_EVENT_ID, a.event_id);
    let p3 = enc_bytes(TAG_SYMBOL, a.symbol);
    let p4 = enc_bytes(TAG_RULE, a.rule);
    let p6 = sign_mag(a.pct_change.num);
    let p7 = spec_digits(a.pct_change.den as nat, 20);
    let p8 = enc_u64(TAG_PRICE, a.price);
    let p9 = enc_i64(TAG_TS, a.ts);
    let p10 = enc_bytes(TAG_SOURCE, a.source);
    let c1 = seq![KIND_ALERT] + p1;
    let c2 = c1 + p2;
    let c3 = c2 + p3;
    let c4 = c3 + p4;
    let c5 = c4 + seq![TAG_PCT];
    let c6 = c5 + p6;
    let c7 = c6 + p7;
    let c8 = c7 + p8;
    let c9 = c8 + p9;
    assert(buf.len() == 193 + sl + rl + ol);
    assert(buf.subrange(0, buf.len() as int) =~= buf);
    lemma_take_part(buf, 0, 193 + sl + rl + ol, c9, p10);
    lemma_take_part(buf, 0, q + 83, c8, p9);
    lemma_take_part(buf, 0, q + 62, c7, p8);
    lemma_take_part(buf, 0, q + 41, c6, p7);
    lemma_take_part(buf, 0, q + 21, c5, p6);
    lemma_take_part(buf, 0, q + 1, c4, seq![TAG_PCT]);
    lemma_take_part(buf, 0, q, c3, p4);
    lemma_take_part(buf, 0, 92 + sl, c2, p3);
    lemma_take_part(buf, 0, 83, c1, p2);
    lemma_take_part(buf, 0, 42, seq![KIND_ALERT], p1);
    lemma_single(buf, 0, KIND_ALERT);
    lemma_id_facts(buf, 1, TAG_ALERT_ID, a.alert_id);
    lemma_id_facts(buf, 42, TAG_EVENT_ID, a.event_id);
    lemma_bytes_facts(buf, 83, TAG_SYMBOL, a.symbol);
    lemma_bytes_facts(buf, 92 + sl, TAG_RULE, a.rule);
    lemma_single(buf, q, TAG_PCT);
    lemma_take_part(buf, q + 41, q + 62, seq![TAG_PRICE], spec_digits(a.price as nat, 20));
    lemma_single(buf, q + 41, TAG_PRICE);
    lemma_take_part(buf, q + 62, q + 83, seq![TAG_TS], sign_mag(a.ts));
    lemma_single(buf, q + 62, TAG_TS);
    lemma_bytes_facts(buf, q + 83, TAG_SOURCE, a.source);
}

/// Reads the leading fields of an alert record: kind byte, the two
/// identifiers, the symbol and the rule text. `None` means no valid
/// alert encodes to this buffer.
#[verifier::rlimit(100)]
fn decode_alert_head(buf: &[u8]) -> (r: Option<(u128, u128, Vec<u8>, Vec<u8>, usize)>)
    ensures
        match r {
            Some((alert_id, event_id, symbol, rule, pd)) => {
                &&& symbol@.len() <= MAX_FIELD
                &&& rule@.len() <= MAX_FIELD
                &&& pd == 101 + symbol@.len() + rule@.len()
                &&& pd <= buf@.len()
                &&& buf@.subrange(0, 1) == seq![KIND_ALERT]
                &&& buf@.subrange(1, 42) == enc_id(TAG_ALERT_ID, alert_id)
                &&& buf@.subrange(42, 83) == enc_id(TAG_EVENT_ID, event_id)
                &&& buf@.subrange(83, 92 + symbol@.len() as int) == enc_bytes(TAG_SYMBOL, symbol@)
                &&& buf@.subrange(92 + symbol@.len() as int, pd as int) == enc_bytes(TAG_RULE, rule@)
                &&& dec_val(buf@.subrange(2, 22)) == (alert_id as nat) / (TWO64 as nat)
                &&& dec_val(buf@.subrange(22, 42)) == (alert_id as nat) % (TWO64 as nat)
                &&& dec_val(buf@.subrange(43, 63)) == (event_id as nat) / (TWO64 as nat)
                &&& dec_val(buf@.subrange(63, 83)) == (event_id as nat) % (TWO64 as nat)
                &&& dec_val(buf@.subrange(84, 92)) == symbol@.len()
                &&& symbol@ == buf@.subrange(92, 92 + symbol@.len() as int)
                &&& dec_val(buf@.subrange(93 + symbol@.len() as int, 101 + symbol@.len() as int)) == rule@.len()
                &&& rule@ == buf@.subrange(101 + symbol@.len() as int, pd as int)
            },
            None => forall|a: AlertV| !(alert_valid(a) && buf@ == #[trigger] spec_enc_alert(a)),
        },
{
    if !read_tag(buf, 0, KIND_ALERT) {
        proof {
            assert forall|a: AlertV| !(alert_valid(a) && buf@ == spec_enc_alert(a)) by {
                if alert_valid(a) && buf@ == spec_enc_alert(a) {
                    lemma_alert_anatomy(buf@, a);
                }
            }
        }
        return None;
    }
    let (alert_id, pa) = match read_id(buf, 1, TAG_ALERT_ID) {
        None => {
            proof {
                assert forall|a: AlertV| !(alert_valid(a) && buf@ == spec_enc_alert(a)) by {
                    if alert_valid(a) && buf@ == spec_enc_alert(a) {
                        lemma_alert_anatomy(buf@, a);
                    }
                }
            }
            return None;
        },
        Some(x) => x,
    };
    let (event_id, pb) = match read_id(buf, pa, TAG_EVENT_ID) {
        None => {
            proof {
                assert forall|a: AlertV| !(alert_valid(a) && buf@ == spec_enc_alert(a)) by {
                    if alert_valid(a) && buf@ == spec_enc_alert(a) {
                        lemma_alert_anatomy(buf@, a);
                    }
                }
            }
            return None;
        },
        Some(x) => x,
    };
    let (symbol, pc) = match read_bytes_field(buf, pb, TAG_SYMBOL) {
        None => {
            proof {
                assert forall|a: AlertV| !(alert_valid(a) && buf@ == spec_enc_alert(a)) by {
                    if alert_valid(a) && buf@ == spec_enc_alert(a) {
                        lemma_alert_anatomy(buf@, a);
                    }
                }
            }
            return None;
        },
        Some(x) => x,
    };
    let (rule, pd) = match read_bytes_field(buf, pc, TAG_RULE) {
        None => {
            proof {
                assert forall|a: AlertV| !(alert_valid(a) && buf@ == spec_enc_alert(a)) by {
                    if alert_valid(a) && buf@ == spec_enc_alert(a) {
                        lemma_alert_anatomy(buf@, a);
                    }
                }
            }
            return None;
        },
        Some(x) => x,
    };
    proof {
        assert(buf@.subrange(0, 1) =~= seq![KIND_ALERT]);
    }
    Some((alert_id, event_id, symbol, rule, pd))
}

/// Reads the percent-change field of an alert record at offset `pd`.
/// The preconditions are what `decode_alert_head` established.
#[verifier::rlimit(100)]
fn decode_alert_mid(buf: &[u8], pd: usize, symbol: &Vec<u8>, rule: &Vec<u8>) -> (r: Option<(
    i64,
    u64,
)>)
    requires
        symbol@.len() <= MAX_FIELD,
        rule@.len() <= MAX_FIELD,
        pd == 101 + symbol@.len() + rule@.len(),
        pd <= buf@.len(),
        dec_val(buf@.subrange(84, 92)) == symbol@.len(),
        dec_val(buf@.subrange(93 + symbol@.len() as int, 101 + symbol@.len() as int))
            == rule@.len(),
    ensures
        match r {
            Some((num, den)) => {
                &&& pd + 41 <= buf@.len()
                &&& buf@.subrange(pd as int, pd + 1) == seq![TAG_PCT]
                &&& buf@.subrange(pd + 1, pd + 21) == sign_mag(num)
                &&& buf@.subrange(pd + 21, pd + 41) == spec_digits(den as nat, 20)
                &&& 1 <= den <= MAX_PRICE
                &&& -100_000_000_000_000_000 <= num <= 100_000_000_000_000_000
            },
            None => forall|a: AlertV| !(alert_valid(a) && buf@ == #[trigger] spec_enc_alert(a)),
        },
{
    if !read_tag(buf, pd, TAG_PCT) {
        proof {
            assert forall|a: AlertV| !(alert_valid(a) && buf@ == spec_enc_alert(a)) by {
                if alert_valid(a) && buf@ == spec_enc_alert(a) {
                    lemma_alert_anatomy(buf@, a);
                }
            }
        }
        return None;
    }
    let _n: usize = buf.len();
    let num = match read_sign_mag(buf, pd + 1) {
        None => {
            proof {
                assert forall|a: AlertV| !(alert_valid(a) && buf@ == spec_enc_alert(a)) by {
                    if alert_valid(a) && buf@ == spec_enc_alert(a) {
                        lemma_alert_anatomy(buf@, a);
                        lemma_sign_mag_facts(
                            buf@,
                            102 + a.symbol.len() as int + a.rule.len() as int,
                            a.pct_change.num,
                        );
                    }
                }
            }
            return None;
        },
        Some(x) => x,
    };
    let den = match read_u64_digits(buf, pd + 21) {
        None => {
            proof {
                assert forall|a: AlertV| !(alert_valid(a) && buf@ == spec_enc_alert(a)) by {
                    if alert_valid(a) && buf@ == spec_enc_alert(a) {
                        lemma_alert_anatomy(buf@, a);
                    }
                }
            }
            return None;
        },
        Some(x) => x,
    };
    if den < 1 || den > MAX_PRICE || num < -100_000_000_000_000_000i64
        || num > 100_000_000_000_000_000i64 {
        proof {
            assert forall|a: AlertV| !(alert_valid(a) && buf@ == spec_enc_alert(a)) by {
                if alert_valid(a) && buf@ == spec_enc_alert(a) {
                    lemma_alert_anatomy(buf@, a);
                    lemma_sign_mag_inj(num, a.pct_change.num);
                }
            }
        }
        return None;
    }
    proof {
        assert(buf@.subrange(pd as int, pd + 1) =~= seq![TAG_PCT]);
    }
    Some((num, den))
}

/// Reads the trailing fields of an alert record from offset `pd + 41`:
/// price, timestamp and source, and checks that the record ends exactly
/// there. The preconditions are what `decode_alert_head` established.
#[verifier::rlimit(100)]
fn decode_alert_end(buf: &[u8], pd: usize, symbol: &Vec<u8>, rule: &Vec<u8>) -> (r: Option<(
    u64,
    i64,
    Vec<u8>,
    usize,
)>)
    requires
        symbol@.len() <= MAX_FIELD,
        rule@.len() <= MAX_FIELD,
        pd == 101 + symbol@.len() + rule@.len(),
        pd + 41 <= buf@.len(),
        dec_val(buf@.subrange(84, 92)) == symbol@.len(),
        dec_val(buf@.subrange(93 + symbol@.len() as int, 101 + symbol@.len() as int))
            == rule@.len(),
    ensures
        match r {
            Some((price, ts, source, ph)) => {
                &&& source@.len() <= MAX_FIELD
                &&& ph == pd + 92 + source@.len()
                &&& ph == buf@.len()
                &&& buf@.subrange(pd + 41, pd + 62) == enc_u64(TAG_PRICE, price)
                &&& buf@.subrange(pd + 62, pd + 83) == enc_i64(TAG_TS, ts)
                &&& buf@.subrange(pd + 83, ph as int) == enc_bytes(TAG_SOURCE, source@)
                &&& 1 <= price <= MAX_PRICE
            },
            None => forall|a: AlertV| !(alert_valid(a) && buf@ == #[trigger] spec_enc_alert(a)),
        },
{
    let n: usize = buf.len();
    let (price, pf) = match read_u64_field(buf, pd + 41, TAG_PRICE) {
        None => {
            proof {
                assert forall|a: AlertV| !(alert_valid(a) && buf@ == spec_enc_alert(a)) by {
                    if alert_valid(a) && buf@ == spec_enc_alert(a) {
                        lemma_alert_anatomy(buf@, a);
                    }
                }
            }
            return None;
        },
        Some(x) => x,
    };
    if price < 1 || price > MAX_PRICE {
        proof {
            assert forall|a: AlertV| !(alert_valid(a) && buf@ == spec_enc_alert(a)) by {
                if alert_valid(a) && buf@ == spec_enc_alert(a) {
                    lemma_alert_anatomy(buf@, a);
                }
            }
        }
        return None;
    }
    let (ts, pg) = match read_i64_field(buf, pf, TAG_TS) {
        None => {
            proof {
                assert forall|a: AlertV| !(alert_valid(a) && buf@ == spec_enc_alert(a)) by {
                    if alert_valid(a) && buf@ == spec_enc_alert(a) {
                        lemma_alert_anatomy(buf@, a);
                        lemma_sign_mag_facts(
                            buf@,
                            164 + a.symbol.len() as int + a.rule.len() as int,
                            a.ts,
                        );
                    }
                }
            }
            return None;
        },
        Some(x) => x,
    };
    let (source, ph) = match read_bytes_field(buf, pg, TAG_SOURCE) {
        None => {
            proof {
                assert forall|a: AlertV| !(alert_valid(a) && buf@ == spec_enc_alert(a)) by {
                    if alert_valid(a) && buf@ == spec_enc_alert(a) {
                        lemma_alert_anatomy(buf@, a);
                    }
                }
            }
            return None;
        },
        Some(x) => x,
    };
    if ph != n {
        proof {
            assert forall|a: AlertV| !(alert_valid(a) && buf@ == spec_enc_alert(a)) by {
                if alert_valid(a) && buf@ == spec_enc_alert(a) {
                    lemma_alert_anatomy(buf@, a);
                }
            }
        }
        return None;
    }
    Some((price, ts, source, ph))
}

/// Decodes an alert. Accepts exactly the encodings of valid alerts:
/// decoding an encoded alert gives back that alert (the round trip), and
/// a `Some` result always re-encodes to the very input.
#[verifier::rlimit(100)]
pub fn decode_alert(buf: &[u8]) -> (r: Option<Alert>)
    ensures
        (match r {
            Some(al) => alert_valid(al@) && buf@ == spec_enc_alert(al@),
            None => true,
        }),
        forall|a: AlertV|
            alert_valid(a) && buf@ == #[trigger] spec_enc_alert(a) ==> (r matches Some(al)
                && al@ == a),
{
    let n: usize = buf.len();
    let (alert_id, event_id, symbol, rule, pd) = match decode_alert_head(buf) {
        None => {
            return None;
        },
        Some(x) => x,
    };
    let (num, den) = match decode_alert_mid(buf, pd, &symbol, &rule) {
        None => {
            return None;
        },
        Some(x) => x,
    };
    let (price, ts, source, ph) = match decode_alert_end(buf, pd, &symbol, &rule) {
        None => {
            return None;
        },
        Some(x) => x,
    };
    let al = Alert {
        alert_id,
        event_id,
        symbol,
        rule,
        pct_change: Pct { num, den },
        price,
        ts,
        source,
    };
    proof {
        lemma_split(buf@, 0, 1, 42, seq![KIND_ALERT], enc_id(TAG_ALERT_ID, alert_id));
        let c1 = seq![KIND_ALERT] + enc_id(TAG_ALERT_ID, alert_id);
        lemma_split(buf@, 0, 42, 83, c1, enc_id(TAG_EVENT_ID, event_id));
        let c2 = c1 + enc_id(TAG_EVENT_ID, event_id);
        lemma_split(
            buf@,
            0,
            83,
            92 + al.symbol@.len() as int,
            c2,
            enc_bytes(TAG_SYMBOL, al.symbol@),
        );
        let c3 = c2 + enc_bytes(TAG_SYMBOL, al.symbol@);
        lemma_split(
            buf@,
            0,
            92 + al.symbol@.len() as int,
            pd as int,
            c3,
            enc_bytes(TAG_RULE, al.rule@),
        );
        let c4 = c3 + enc_bytes(TAG_RULE, al.rule@);
        lemma_split(buf@, 0, pd as int, pd + 1, c4, seq![TAG_PCT]);
        let c5 = c4 + seq![TAG_PCT];
        lemma_split(buf@, 0, pd + 1, pd + 21, c5, sign_mag(num));
        let c6 = c5 + sign_mag(num);
        lemma_split(buf@, 0, pd + 21, pd + 41, c6, spec_digits(den as nat, 20));
        let c7 = c6 + spec_digits(den as nat, 20);
        lemma_split(buf@, 0, pd + 41, pd + 62, c7, enc_u64(TAG_PRICE, price));
        let c8 = c7 + enc_u64(TAG_PRICE, price);
        lemma_split(buf@, 0, pd + 62, pd + 83, c8, enc_i64(TAG_TS, ts));
        let c9 = c8 + enc_i64(TAG_TS, ts);
        lemma_split(buf@, 0, pd + 83, ph as int, c9, enc_bytes(TAG_SOURCE, al.source@));
        assert(buf@.subrange(0, n as int) =~= buf@);
        assert(buf@ == spec_enc_alert(al@));
        assert forall|a: AlertV|
            alert_valid(a) && buf@ == spec_enc_alert(a) implies (Some(al) matches Some(al2)
            && al2@ == a) by {
            lemma_alert_anatomy(buf@, a);
            lemma_fundamental_div_mod(a.alert_id as int, TWO64 as int);
            lemma_fundamental_div_mod(a.event_id as int, TWO64 as int);
            assert(al@.symbol =~= a.symbol);
            assert(al@.rule =~= a.rule);
            assert(pd == 101 + a.symbol.len() + a.rule.len());
            lemma_sign_mag_inj(num, a.pct_change.num);
            lemma_u64_facts(buf@, pd + 21, den);
            lemma_take_part(buf@, pd + 41, pd + 62, seq![TAG_PRICE], spec_digits(price as nat, 20));
            lemma_u64_facts(buf@, pd + 42, price);
            lemma_take_part(buf@, pd + 62, pd + 83, seq![TAG_TS], sign_mag(ts));
            lemma_sign_mag_inj(ts, a.ts);
            lemma_bytes_facts(buf@, pd + 83, TAG_SOURCE, al.source@);
            assert(al@.source =~= a.source);
        }
    }
    Some(al)
}

} // verus!
