//! Fixed-width decimal numerals: the numeric layer of the wire codec.
//!
//! Every number on the wire is a run of ASCII digits of a fixed width
//! (leading zeros included), so a decoder can walk a record without
//! scanning for delimiters. `spec_digits` gives the numeral of a value,
//! `dec_val` the value of a numeral, and the two lemmas below show they
//! are mutually inverse, which is what the message round-trip rests on.

use vstd::prelude::*;
use vstd::arithmetic::div_mod::{
    lemma_div_decreases, lemma_fundamental_div_mod_converse, lemma_mod_breakdown,
    lemma_multiply_divide_lt,
};

verus! {

pub open spec fn pow10(w: nat) -> nat
    decreases w,
{
    if w == 0 {
        1
    } else {
        10 * pow10((w - 1) as nat)
    }
}

pub open spec fn is_digit(b: u8) -> bool {
    48 <= b <= 57
}

pub open spec fn all_digits(s: Seq<u8>) -> bool {
    forall|i: int| 0 <= i < s.len() ==> is_digit(#[trigger] s[i])
}

/// The `w`-digit decimal numeral of `n mod 10^w`, most significant first.
pub open spec fn spec_digits(n: nat, w: nat) -> Seq<u8>
    decreases w,
{
    if w == 0 {
        Seq::empty()
    } else {
        spec_digits(n / 10, (w - 1) as nat).push((n % 10 + 48) as u8)
    }
}

/// The value of a digit run, most significant first.
pub open spec fn dec_val(s: Seq<u8>) -> nat
    decreases s.len(),
{
    if s.len() == 0 {
        0
    } else {
        dec_val(s.drop_last()) * 10 + (s.last() - 48) as nat
    }
}

pub proof fn lemma_pow10_pos(w: nat)
    ensures
        pow10(w) >= 1,
    decreases w,
{
    if w > 0 {
        lemma_pow10_pos((w - 1) as nat);
    }
}

pub proof fn lemma_pow10_increases(v: nat, w: nat)
    requires
        v <= w,
    ensures
        pow10(v) <= pow10(w),
    decreases w,
{
    if v < w {
        lemma_pow10_increases(v, (w - 1) as nat);
        lemma_pow10_pos((w - 1) as nat);
    }
}

/// The powers of ten behind the concrete field widths, written out.
pub proof fn lemma_pow10_consts()
    ensures
        pow10(8) == 100_000_000,
        pow10(19) == 10_000_000_000_000_000_000,
        pow10(20) == 100_000_000_000_000_000_000,
{
    reveal_with_fuel(pow10, 21);
}

/// Encoding is sound: the numeral of `n` is `w` digits whose value is
/// `n mod 10^w` (hence `n` itself whenever `n < 10^w`).
pub proof fn lemma_digits_val(n: nat, w: nat)
    ensures
        spec_digits(n, w).len() == w,
        all_digits(spec_digits(n, w)),
        dec_val(spec_digits(n, w)) == n % pow10(w),
    decreases w,
{
    if w == 0 {
        assert(n % 1 == 0) by {
            lemma_fundamental_div_mod_converse(n as int, 1, n as int, 0);
        }
    } else {
        lemma_digits_val(n / 10, (w - 1) as nat);
        let prefix = spec_digits(n / 10, (w - 1) as nat);
        let d = (n % 10 + 48) as u8;
        let s = prefix.push(d);
        assert(s.drop_last() =~= prefix);
        assert(s.last() == d);
        assert(dec_val(s) == ((n / 10) % pow10((w - 1) as nat)) * 10 + n % 10);
        lemma_pow10_pos((w - 1) as nat);
        lemma_mod_breakdown(n as int, 10, pow10((w - 1) as nat) as int);
        assert(pow10(w) == 10 * pow10((w - 1) as nat));
    }
}

/// Decoding is complete: a run of digits is exactly the numeral of its
/// value, and that value is below `10^len`.
pub proof fn lemma_val_digits(s: Seq<u8>)
    requires
        all_digits(s),
    ensures
        dec_val(s) < pow10(s.len()),
        spec_digits(dec_val(s), s.len()) == s,
    decreases s.len(),
{
    if s.len() == 0 {
        assert(spec_digits(dec_val(s), 0) =~= s);
    } else {
        let prefix = s.drop_last();
        assert(forall|i: int| 0 <= i < prefix.len() ==> is_digit(#[trigger] prefix[i]));
        lemma_val_digits(prefix);
        let v = dec_val(s);
        let r = (s.last() - 48) as int;
        assert(v == dec_val(prefix) * 10 + r);
        lemma_fundamental_div_mod_converse(v as int, 10, dec_val(prefix) as int, r);
        assert(v / 10 == dec_val(prefix));
        assert(v % 10 == r);
        lemma_pow10_pos((s.len() - 1) as nat);
        assert(v < pow10(s.len())) by {
            assert(dec_val(prefix) < pow10((s.len() - 1) as nat));
            assert(pow10(s.len()) == 10 * pow10((s.len() - 1) as nat));
        }
        assert(spec_digits(v, s.len()) == spec_digits(v / 10, (s.len() - 1) as nat).push(
            (v % 10 + 48) as u8,
        ));
        assert((v % 10 + 48) as u8 == s.last());
        assert(spec_digits(v, s.len()) =~= s);
    }
}

/// Writes `n` as exactly `width` decimal digits, leading zeros included.
pub fn enc_dec(n: u128, width: usize) -> (r: Vec<u8>)
    requires
        (n as nat) < pow10(width as nat),
    ensures
        r@ == spec_digits(n as nat, width as nat),
    decreases width,
{
    if width == 0 {
        Vec::new()
    } else {
        proof {
            lemma_pow10_pos((width - 1) as nat);
            lemma_multiply_divide_lt(n as int, 10, pow10((width - 1) as nat) as int);
        }
        let mut r = enc_dec(n / 10, width - 1);
        r.push((n % 10) as u8 + 48);
        r
    }
}

/// Reads `width` bytes at `pos` as a decimal numeral; `None` when the
/// buffer is too short or a byte is not a digit.
pub fn read_dec(buf: &[u8], pos: usize, width: usize) -> (r: Option<u128>)
    requires
        width <= 20,
    ensures
        match r {
            Some(v) => pos + width <= buf@.len() && all_digits(
                buf@.subrange(pos as int, pos + width),
            ) && v as nat == dec_val(buf@.subrange(pos as int, pos + width)),
            None => pos + width > buf@.len() || !all_digits(
                buf@.subrange(pos as int, pos + width),
            ),
        },
{
    let n = buf.len();
    if n < width || pos > n - width {
        return None;
    }
    let ghost full = buf@.subrange(pos as int, pos + width);
    let mut val: u128 = 0;
    let mut i: usize = 0;
    while i < width
        invariant
            pos + width <= n,
            n == buf@.len(),
            full == buf@.subrange(pos as int, pos + width),
            width <= 20,
            i <= width,
            all_digits(buf@.subrange(pos as int, pos + i)),
            val as nat == dec_val(buf@.subrange(pos as int, pos + i)),
            (val as nat) < pow10(i as nat),
        decreases width - i,
    {
        let b = buf[pos + i];
        if b < 48 || b > 57 {
            proof {
                assert(full[i as int] == b);
            }
            return None;
        }
        let ghost prev = buf@.subrange(pos as int, pos + i);
        let ghost cur = buf@.subrange(pos as int, pos + i + 1);
        proof {
            lemma_pow10_increases(i as nat, 19);
            lemma_pow10_consts();
            lemma_pow10_increases((i + 1) as nat, 20);
            assert(cur.drop_last() =~= prev);
            assert(cur.last() == b);
            assert(pow10((i + 1) as nat) == 10 * pow10(i as nat));
        }
        val = val * 10 + ((b - 48) as u128);
        i = i + 1;
    }
    proof {
        assert(buf@.subrange(pos as int, pos + width) =~= full);
    }
    Some(val)
}

/// The shortest decimal numeral of `n`, no leading zeros.
pub open spec fn spec_render(n: nat) -> Seq<u8>
    decreases n,
{
    if n < 10 {
        seq![(n + 48) as u8]
    } else {
        spec_render(n / 10).push((n % 10 + 48) as u8)
    }
}

/// A value below `10^w` renders in at most `w` digits.
pub proof fn lemma_render_len(n: nat, w: nat)
    requires
        n < pow10(w),
        1 <= w,
    ensures
        1 <= spec_render(n).len() <= w,
    decreases w,
{
    if n >= 10 {
        assert(pow10(1) == 10) by {
            reveal_with_fuel(pow10, 2);
        }
        assert(w != 1);
        lemma_pow10_pos((w - 1) as nat);
        lemma_multiply_divide_lt(n as int, 10, pow10((w - 1) as nat) as int);
        lemma_render_len(n / 10, (w - 1) as nat);
    }
}

/// Writes `n` in the fewest decimal digits, for human-readable rule text.
pub fn render_dec(n: u64) -> (r: Vec<u8>)
    ensures
        r@ == spec_render(n as nat),
    decreases n,
{
    if n < 10 {
        let mut r: Vec<u8> = Vec::new();
        r.push(n as u8 + 48);
        proof {
            assert(r@ =~= spec_render(n as nat));
        }
        r
    } else {
        proof {
            lemma_div_decreases(n as int, 10);
        }
        let mut r = render_dec(n / 10);
        r.push((n % 10) as u8 + 48);
        r
    }
}

} // verus!
