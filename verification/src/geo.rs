//! Coordinates as fixed-point numbers of 1e-7 degree, and their decimal text.
//!
//! A fixed-point coordinate is decoded by placing the decimal point in its
//! decimal text, seven characters from the right, and reading the result as a
//! decimal number. No floating-point arithmetic is involved.

use crate::error::Error;
use crate::text::{
    all_digits, are_digits, chars_of, digit_char, digit_to_char, digit_value, digits_value,
    find_char, int_text, lemma_digits_value_of_nat_text, lemma_nat_text_digits,
    lemma_position_from_is, magnitude, nat_text, parse_digits, position_from, push_chars,
    push_int, push_nat, push_reversed, slice_chars, string_of,
};
use vstd::prelude::*;

verus! {

/// The number of decimal places of a coordinate.
pub const SCALE_DIGITS: usize = 7;

/// One degree in units of 1e-7 degree.
pub const SCALE: u64 = 10_000_000;

/// Ten to the power `n`.
pub open spec fn pow10(n: nat) -> nat
    decreases n,
{
    if n == 0 {
        1
    } else {
        10 * pow10((n - 1) as nat)
    }
}

/// An angle in units of 1e-7 degree.
#[derive(Clone, Copy, PartialEq, Eq, Structural, Debug)]
pub struct Degrees {
    pub e7: i64,
}

/// The text `t` with a decimal point placed seven characters from the right.
pub open spec fn with_decimal_point(t: Seq<char>) -> Seq<char>
    recommends
        t.len() >= 7,
{
    t.insert(t.len() - 7, '.')
}

/// The parts of a decimal number: whether it is negative, the digits before
/// the point and the digits after it.
///
/// A decimal number is an optional minus sign, digits, and optionally a point
/// and more digits, with at least one digit in all. `None` for any other text.
pub open spec fn decimal_parts(s: Seq<char>) -> Option<(bool, Seq<char>, Seq<char>)> {
    let negative = s.len() > 0 && s[0] == '-';
    let start: int = if negative {
        1
    } else {
        0
    };
    let dot = position_from(s, '.', start);
    let whole = s.subrange(start, dot);
    let fraction = if dot < s.len() {
        s.subrange(dot + 1, s.len() as int)
    } else {
        Seq::<char>::empty()
    };
    if all_digits(whole) && all_digits(fraction) && whole.len() + fraction.len() >= 1 {
        Some((negative, whole, fraction))
    } else {
        None
    }
}

/// The digits after the point that count: the first seven.
pub open spec fn kept_fraction(fraction: Seq<char>) -> Seq<char> {
    if fraction.len() > 7 {
        fraction.subrange(0, 7)
    } else {
        fraction
    }
}

/// The magnitude, in units of 1e-7, of the number with digits `whole` before
/// the point and `fraction` after it. Digits beyond the seventh decimal place
/// are cut off.
pub open spec fn decimal_magnitude(whole: Seq<char>, fraction: Seq<char>) -> nat {
    let kept = kept_fraction(fraction);
    digits_value(whole) * pow10(7) + digits_value(kept) * pow10((7 - kept.len()) as nat)
}

/// The value of a decimal number in units of 1e-7, or `None` where `s` is
/// no decimal number.
pub open spec fn decimal_e7(s: Seq<char>) -> Option<int> {
    match decimal_parts(s) {
        Some((negative, whole, fraction)) => Some(
            if negative {
                -(decimal_magnitude(whole, fraction) as int)
            } else {
                decimal_magnitude(whole, fraction) as int
            },
        ),
        None => None,
    }
}

/// The value of a decimal number in units of 1e-7 where it is one and fits
/// into 64 bits.
pub open spec fn parsed_e7(s: Seq<char>) -> Option<i64> {
    match decimal_e7(s) {
        Some(v) => if i64::MIN <= v <= i64::MAX {
            Some(v as i64)
        } else {
            None
        },
        None => None,
    }
}

/// The decimal text of `n` in exactly `width` digits, with leading zeros;
/// the digits of `n` beyond `width` are left out.
pub open spec fn padded_digits(n: nat, width: nat) -> Seq<char>
    decreases width,
{
    if width == 0 {
        Seq::<char>::empty()
    } else {
        padded_digits(n / 10, (width - 1) as nat).push(digit_char((n % 10) as int))
    }
}

/// The decimal text of an angle with exactly seven decimal places.
pub open spec fn degrees_text(e7: int) -> Seq<char> {
    let m: nat = if e7 < 0 {
        (-e7) as nat
    } else {
        e7 as nat
    };
    let sign: Seq<char> = if e7 < 0 {
        seq!['-']
    } else {
        Seq::<char>::empty()
    };
    sign + nat_text(m / 10_000_000) + seq!['.'] + padded_digits(m % 10_000_000, 7)
}

/// The powers of ten up to a whole degree.
pub proof fn lemma_pow10_values()
    ensures
        pow10(0) == 1,
        pow10(1) == 10,
        pow10(2) == 100,
        pow10(3) == 1_000,
        pow10(4) == 10_000,
        pow10(5) == 100_000,
        pow10(6) == 1_000_000,
        pow10(7) == 10_000_000,
{
    reveal_with_fuel(pow10, 8);
}

/// A text of digits writes a number below ten to the power of its length.
pub proof fn lemma_digits_value_bound(s: Seq<char>)
    requires
        all_digits(s),
    ensures
        digits_value(s) < pow10(s.len()),
    decreases s.len(),
{
    if s.len() > 0 {
        let init = s.drop_last();
        assert forall|i: int| 0 <= i < init.len() implies (#[trigger] digit_value(
            init[i],
        )) is Some by {
            assert(init[i] == s[i]);
        }
        lemma_digits_value_bound(init);
        assert(digit_value(s.last()) is Some);
    }
}

/// The digits of a concatenation write the number of the first part, shifted
/// by the length of the second, plus the number of the second.
pub proof fn lemma_digits_value_concat(a: Seq<char>, b: Seq<char>)
    ensures
        digits_value(a + b) == digits_value(a) * pow10(b.len()) + digits_value(b),
    decreases b.len(),
{
    if b.len() == 0 {
        assert(a + b =~= a);
        assert(pow10(0) == 1);
    } else {
        let ab = a + b;
        assert(ab.drop_last() =~= a + b.drop_last());
        assert(ab.last() == b.last());
        lemma_digits_value_concat(a, b.drop_last());
        let x = digits_value(a);
        let y = digits_value(b.drop_last());
        let d = digit_value(b.last()).unwrap_or(0);
        let p = pow10(b.drop_last().len());
        assert(pow10(b.len()) == 10 * p);
        assert(digits_value(ab) == (x * p + y) * 10 + d);
        assert(digits_value(b) == y * 10 + d);
        assert((x * p + y) * 10 == x * (10 * p) + y * 10) by (nonlinear_arith);
    }
}

/// The decimal text of a number has more than `k` digits exactly when the
/// number is at least ten to the power `k`.
pub proof fn lemma_nat_text_len(n: nat, k: nat)
    requires
        k >= 1,
    ensures
        nat_text(n).len() > k <==> n >= pow10(k),
    decreases k,
{
    lemma_nat_text_digits(n);
    lemma_nat_text_digits(n / 10);
    lemma_pow10_at_least(k);
    if n < 10 {
    } else if k == 1 {
        assert(pow10(1) == 10) by {
            reveal_with_fuel(pow10, 2);
        }
    } else {
        lemma_nat_text_len(n / 10, (k - 1) as nat);
        let p = pow10((k - 1) as nat);
        assert(n / 10 >= p <==> n >= 10 * p);
    }
}

/// Ten to a positive power is at least ten.
pub proof fn lemma_pow10_at_least(k: nat)
    ensures
        pow10(k) >= 1,
        k >= 1 ==> pow10(k) >= 10,
    decreases k,
{
    if k >= 1 {
        lemma_pow10_at_least((k - 1) as nat);
    }
}

/// The padded text of a number has the asked width, holds digits only, and
/// writes the number where it fits.
pub proof fn lemma_padded_digits(n: nat, width: nat)
    ensures
        padded_digits(n, width).len() == width,
        all_digits(padded_digits(n, width)),
        n < pow10(width) ==> digits_value(padded_digits(n, width)) == n,
    decreases width,
{
    if width > 0 {
        lemma_padded_digits(n / 10, (width - 1) as nat);
        let s = padded_digits(n, width);
        assert(s.drop_last() =~= padded_digits(n / 10, (width - 1) as nat));
        assert forall|i: int| 0 <= i < s.len() implies (#[trigger] digit_value(s[i])) is Some by {
            if i < s.len() - 1 {
                assert(s[i] == s.drop_last()[i]);
            }
        }
        let p = pow10((width - 1) as nat);
        assert(n < 10 * p ==> n / 10 < p);
    }
}

/// Ten to the power `k`, for the powers up to a whole degree.
pub fn pow10_u64(k: usize) -> (r: u64)
    requires
        k <= 7,
    ensures
        r == pow10(k as nat),
{
    proof {
        lemma_pow10_values();
    }
    if k == 0 {
        1
    } else if k == 1 {
        10
    } else if k == 2 {
        100
    } else if k == 3 {
        1_000
    } else if k == 4 {
        10_000
    } else if k == 5 {
        100_000
    } else if k == 6 {
        1_000_000
    } else {
        10_000_000
    }
}

/// Reads `s` as a decimal number in units of 1e-7.
///
/// Digits beyond the seventh decimal place are cut off. `None` where `s` is
/// no decimal number or its value does not fit into 64 bits.
pub fn parse_e7(s: &Vec<char>) -> (r: Option<i64>)
    ensures
        r == parsed_e7(s@),
{
    let n = s.len();
    let negative = n > 0 && s[0] == '-';
    let start: usize = if negative {
        1
    } else {
        0
    };
    let dot = find_char(s, '.', start);
    let fstart: usize = if dot < n {
        dot + 1
    } else {
        n
    };
    let flen: usize = n - fstart;
    let klen: usize = if flen > 7 {
        7
    } else {
        flen
    };
    let ghost whole = s@.subrange(start as int, dot as int);
    let ghost fraction = s@.subrange(fstart as int, n as int);
    let ghost kept = s@.subrange(fstart as int, fstart + klen);
    let ghost rest = s@.subrange(fstart + klen, n as int);
    proof {
        if dot >= n {
            assert(fraction =~= Seq::<char>::empty());
        }
        assert(kept_fraction(fraction) =~= kept);
        assert(decimal_parts(s@) == if all_digits(whole) && all_digits(fraction) && whole.len()
            + fraction.len() >= 1 {
            Some((negative, whole, fraction))
        } else {
            None
        });
    }
    if (dot - start) + flen == 0 {
        return None;
    }
    if !are_digits(s, fstart + klen, n) {
        proof {
            let j = choose|j: int| 0 <= j < rest.len() && !((#[trigger] digit_value(rest[j])) is Some);
            assert(fraction[klen + j] == rest[j]);
        }
        return None;
    }
    let kv = match parse_digits(s, fstart, fstart + klen) {
        Some(v) => v,
        None => {
            proof {
                lemma_pow10_values();
                if all_digits(kept) {
                    lemma_digits_value_bound(kept);
                    lemma_pow10_le(kept.len(), 7);
                } else {
                    let j = choose|j: int|
                        0 <= j < kept.len() && !((#[trigger] digit_value(kept[j])) is Some);
                    assert(fraction[j] == kept[j]);
                }
            }
            return None;
        },
    };
    proof {
        assert forall|j: int| 0 <= j < fraction.len() implies (#[trigger] digit_value(
            fraction[j],
        )) is Some by {
            if j < klen {
                assert(fraction[j] == kept[j]);
            } else {
                assert(fraction[j] == rest[j - klen]);
            }
        }
        lemma_digits_value_bound(kept);
        lemma_pow10_values();
    }
    let scale = pow10_u64(7 - klen);
    proof {
        lemma_pow10_product(klen as nat, (7 - klen) as nat);
        let a = pow10(klen as nat);
        assert(kv * scale < 10_000_000) by (nonlinear_arith)
            requires
                kv < a,
                a * scale == 10_000_000,
                scale > 0,
        ;
    }
    let frac: u64 = kv * scale;
    let wv = match parse_digits(s, start, dot) {
        Some(v) => v,
        None => {
            proof {
                if all_digits(whole) {
                    let w = digits_value(whole);
                    assert(w * pow10(7) >= w) by (nonlinear_arith)
                        requires
                            pow10(7) >= 1,
                            w >= 0,
                    ;
                }
            }
            return None;
        },
    };
    let ghost mag = decimal_magnitude(whole, fraction);
    proof {
        assert(mag == wv * 10_000_000 + frac);
    }
    let mag_exec: u64 = match wv.checked_mul(SCALE) {
        Some(t) => match t.checked_add(frac) {
            Some(m) => m,
            None => {
                return None;
            },
        },
        None => {
            return None;
        },
    };
    if negative {
        if mag_exec > 0x8000_0000_0000_0000 {
            None
        } else if mag_exec == 0x8000_0000_0000_0000 {
            Some(i64::MIN)
        } else {
            Some(-(mag_exec as i64))
        }
    } else {
        if mag_exec > 0x7fff_ffff_ffff_ffff {
            None
        } else {
            Some(mag_exec as i64)
        }
    }
}

/// Powers of ten multiply by adding exponents.
pub proof fn lemma_pow10_product(a: nat, b: nat)
    ensures
        pow10(a) * pow10(b) == pow10(a + b),
    decreases a,
{
    if a == 0 {
        assert(pow10(0) == 1);
    } else {
        lemma_pow10_product((a - 1) as nat, b);
        let x = pow10((a - 1) as nat);
        let y = pow10(b);
        assert((10 * x) * y == 10 * (x * y)) by (nonlinear_arith);
    }
}

/// Powers of ten grow with the exponent.
pub proof fn lemma_pow10_le(a: nat, b: nat)
    requires
        a <= b,
    ensures
        pow10(a) <= pow10(b),
    decreases b,
{
    if a < b {
        lemma_pow10_le(a, (b - 1) as nat);
    }
}

/// The decimal text of `raw` with the decimal point placed seven characters
/// from the right, as characters.
///
/// Fails where the text of `raw`, sign included, has fewer than seven
/// characters.
pub fn fixed_point_chars(raw: i64) -> (r: Result<Vec<char>, Error>)
    ensures
        match r {
            Ok(v) => int_text(raw as int).len() >= 7 && v@ == with_decimal_point(
                int_text(raw as int),
            ),
            Err(e) => e == Error::MalformedCoordinate && int_text(raw as int).len() < 7,
        },
{
    let mut t: Vec<char> = Vec::new();
    push_int(&mut t, raw);
    proof {
        assert(Seq::<char>::empty() + int_text(raw as int) =~= int_text(raw as int));
    }
    if t.len() < SCALE_DIGITS {
        Err(Error::MalformedCoordinate)
    } else {
        let at = t.len() - SCALE_DIGITS;
        t.insert(at, '.');
        Ok(t)
    }
}

/// The decimal text of `raw` with the decimal point placed seven characters
/// from the right: `470401765` gives `47.0401765`.
///
/// Fails where the text of `raw`, sign included, has fewer than seven
/// characters.
pub fn fixed_point_text(raw: i64) -> (r: Result<String, Error>)
    ensures
        match r {
            Ok(v) => int_text(raw as int).len() >= 7 && v@ == with_decimal_point(
                int_text(raw as int),
            ),
            Err(e) => e == Error::MalformedCoordinate && int_text(raw as int).len() < 7,
        },
{
    match fixed_point_chars(raw) {
        Ok(v) => Ok(string_of(&v)),
        Err(e) => Err(e),
    }
}

/// Placing the decimal point in the text of a number of at least seven
/// digits and reading the result gives the number back; with fewer digits
/// the point cannot be placed or the result is no decimal number.
pub proof fn lemma_fixed_point_decode(raw: int)
    ensures
        raw <= -1_000_000 || raw >= 1_000_000 ==> int_text(raw).len() >= 7 && decimal_e7(
            with_decimal_point(int_text(raw)),
        ) == Some(raw),
        -1_000_000 < raw < 1_000_000 ==> int_text(raw).len() < 7 || decimal_e7(
            with_decimal_point(int_text(raw)),
        ) is None,
{
    lemma_pow10_values();
    let m: nat = if raw < 0 {
        (-raw) as nat
    } else {
        raw as nat
    };
    let d = nat_text(m);
    let n = d.len() as int;
    lemma_nat_text_digits(m);
    lemma_nat_text_len(m, 6);
    lemma_nat_text_len(m, 5);
    lemma_digits_value_of_nat_text(m);
    let text = int_text(raw);
    if m >= 1_000_000 {
        let t = with_decimal_point(text);
        let start: int = if raw < 0 {
            1
        } else {
            0
        };
        let dot = start + n - 7;
        let whole = d.subrange(0, n - 7);
        let fraction = d.subrange(n - 7, n);
        assert(t =~= text.subrange(0, dot) + seq!['.'] + fraction);
        assert forall|j: int| start <= j < dot implies t[j] != '.' by {
            assert(t[j] == d[j - start]);
            assert(digit_value(d[j - start]) is Some);
        }
        assert(t[dot] == '.');
        if raw >= 0 {
            if dot > 0 {
                assert(t[0] == d[0]);
                assert(digit_value(d[0]) is Some);
            }
        }
        lemma_position_from_is(t, '.', start, dot);
        assert(t.subrange(start, dot) =~= whole);
        assert(t.subrange(dot + 1, t.len() as int) =~= fraction);
        assert(all_digits(whole)) by {
            assert forall|j: int| 0 <= j < whole.len() implies (#[trigger] digit_value(
                whole[j],
            )) is Some by {
                assert(whole[j] == d[j]);
            }
        }
        assert(all_digits(fraction)) by {
            assert forall|j: int| 0 <= j < fraction.len() implies (#[trigger] digit_value(
                fraction[j],
            )) is Some by {
                assert(fraction[j] == d[n - 7 + j]);
            }
        }
        assert(kept_fraction(fraction) == fraction);
        lemma_digits_value_concat(whole, fraction);
        assert(whole + fraction =~= d);
        assert(fraction.len() == 7);
        assert(pow10((7 - fraction.len()) as nat) == 1);
        assert(digits_value(fraction) * 1 == digits_value(fraction));
        assert(decimal_magnitude(whole, fraction) == m);
    } else if raw < 0 && n == 6 {
        let t = with_decimal_point(text);
        assert(text.len() == 7);
        assert(t.len() == 8);
        assert(t[0] == '.');
        assert(t[1] == '-');
        lemma_position_from_is(t, '.', 0, 0);
        let fraction = t.subrange(1, t.len() as int);
        assert(fraction[0] == '-');
        assert(digit_value(fraction[0]) is None);
    } else {
    }
}

/// Decodes a fixed-point coordinate: the decimal point is placed in the
/// decimal text of `raw`, seven characters from the right, and the result is
/// read as a decimal number.
///
/// Fails with `MalformedCoordinate` where the point cannot be placed or the
/// result is no decimal number, which is the case exactly for the integers of
/// fewer than seven digits.
pub fn decode_fixed_point_degrees(raw: i64) -> (r: Result<Degrees, Error>)
    ensures
        r is Ok <==> int_text(raw as int).len() >= 7 && parsed_e7(
            with_decimal_point(int_text(raw as int)),
        ) is Some,
        r matches Ok(d) ==> Some(d.e7) == parsed_e7(with_decimal_point(int_text(raw as int))),
        r matches Err(e) ==> e == Error::MalformedCoordinate,
        r == if raw <= -1_000_000 || raw >= 1_000_000 {
            Ok::<Degrees, Error>(Degrees { e7: raw })
        } else {
            Err::<Degrees, Error>(Error::MalformedCoordinate)
        },
{
    proof {
        lemma_fixed_point_decode(raw as int);
    }
    let text = match fixed_point_chars(raw) {
        Ok(t) => t,
        Err(e) => {
            return Err(e);
        },
    };
    match parse_e7(&text) {
        Some(e7) => Ok(Degrees { e7 }),
        None => Err(Error::MalformedCoordinate),
    }
}

/// Appends the decimal text of `n` in exactly `width` digits to `out`.
pub fn push_padded(out: &mut Vec<char>, n: u64, width: usize)
    ensures
        final(out)@ == old(out)@ + padded_digits(n as nat, width as nat),
{
    let mut low: Vec<char> = Vec::new();
    let mut m: u64 = n;
    let mut i: usize = 0;
    while i < width
        invariant
            i <= width,
            low.len() == i,
            padded_digits(n as nat, width as nat) == padded_digits(m as nat, (width - i) as nat)
                + low@.reverse(),
        decreases width - i,
    {
        let c = digit_to_char((m % 10) as u8);
        proof {
            let next = low@.push(c);
            let shorter = padded_digits((m / 10) as nat, (width - i - 1) as nat);
            assert(next.reverse() =~= seq![c] + low@.reverse());
            assert(padded_digits(m as nat, (width - i) as nat) == shorter.push(c));
            assert(shorter.push(c) + low@.reverse() =~= shorter + next.reverse());
        }
        low.push(c);
        m = m / 10;
        i = i + 1;
    }
    push_reversed(out, &low);
    proof {
        assert(padded_digits(m as nat, 0) =~= Seq::<char>::empty());
        assert(padded_digits(n as nat, width as nat) =~= low@.reverse());
    }
}

/// Appends the decimal text of `d`, with exactly seven decimal places, to
/// `out`.
pub fn push_degrees(out: &mut Vec<char>, d: Degrees)
    ensures
        final(out)@ == old(out)@ + degrees_text(d.e7 as int),
{
    let m = magnitude(d.e7);
    if d.e7 < 0 {
        out.push('-');
    }
    push_nat(out, m / SCALE);
    out.push('.');
    push_padded(out, m % SCALE, SCALE_DIGITS);
    proof {
        let sign: Seq<char> = if d.e7 < 0 {
            seq!['-']
        } else {
            Seq::<char>::empty()
        };
        let w = nat_text((m / 10_000_000) as nat);
        let f = padded_digits((m % 10_000_000) as nat, 7);
        assert(out@ =~= old(out)@ + (sign + w + seq!['.'] + f));
    }
}

/// Reading the text of an angle gives the angle back.
pub proof fn lemma_degrees_text_round_trip(e7: int)
    ensures
        decimal_e7(degrees_text(e7)) == Some(e7),
{
    lemma_pow10_values();
    let m: nat = if e7 < 0 {
        (-e7) as nat
    } else {
        e7 as nat
    };
    let start: int = if e7 < 0 {
        1
    } else {
        0
    };
    let whole = nat_text(m / 10_000_000);
    let fraction = padded_digits(m % 10_000_000, 7);
    let t = degrees_text(e7);
    lemma_nat_text_digits(m / 10_000_000);
    lemma_digits_value_of_nat_text(m / 10_000_000);
    lemma_padded_digits(m % 10_000_000, 7);
    let dot = start + whole.len();
    assert(t.len() == dot + 8);
    assert forall|j: int| start <= j < dot implies t[j] != '.' by {
        assert(t[j] == whole[j - start]);
        assert(digit_value(whole[j - start]) is Some);
    }
    assert(t[dot] == '.');
    if e7 >= 0 {
        assert(t[0] == whole[0]);
        assert(digit_value(whole[0]) is Some);
    } else {
        assert(t[0] == '-');
    }
    lemma_position_from_is(t, '.', start, dot);
    assert(t.subrange(start, dot) =~= whole);
    assert(t.subrange(dot + 1, t.len() as int) =~= fraction);
    assert(kept_fraction(fraction) == fraction);
    assert(fraction.len() == 7);
    assert(pow10((7 - fraction.len()) as nat) == 1);
    assert(digits_value(fraction) * 1 == digits_value(fraction));
    assert(digits_value(whole) == m / 10_000_000);
    assert(digits_value(fraction) == m % 10_000_000);
    assert(decimal_magnitude(whole, fraction) == m);
}

impl Degrees {
    /// The decimal text of the angle with exactly seven decimal places.
    pub open spec fn text(self) -> Seq<char> {
        degrees_text(self.e7 as int)
    }

    /// The decimal text of the angle with exactly seven decimal places:
    /// `470500000` gives `47.0500000`.
    pub fn to_text(&self) -> (r: String)
        ensures
            r@ == self.text(),
    {
        let mut out: Vec<char> = Vec::new();
        push_degrees(&mut out, *self);
        proof {
            assert(Seq::<char>::empty() + degrees_text(self.e7 as int) =~= degrees_text(
                self.e7 as int,
            ));
        }
        string_of(&out)
    }

    /// Whether the angle is a latitude: between -90 and 90 degrees.
    pub open spec fn spec_is_latitude(&self) -> bool {
        -900_000_000 <= self.e7 <= 900_000_000
    }

    /// Whether the angle is a longitude: between -180 and 180 degrees.
    pub open spec fn spec_is_longitude(&self) -> bool {
        -1_800_000_000 <= self.e7 <= 1_800_000_000
    }

    /// Whether the angle is a latitude: between -90 and 90 degrees.
    #[verifier::when_used_as_spec(spec_is_latitude)]
    pub fn is_latitude(&self) -> (r: bool)
        ensures
            r == self.spec_is_latitude(),
    {
        -900_000_000 <= self.e7 && self.e7 <= 900_000_000
    }

    /// Whether the angle is a longitude: between -180 and 180 degrees.
    #[verifier::when_used_as_spec(spec_is_longitude)]
    pub fn is_longitude(&self) -> (r: bool)
        ensures
            r == self.spec_is_longitude(),
    {
        -1_800_000_000 <= self.e7 && self.e7 <= 1_800_000_000
    }
}

/// Reads `text` as a decimal number of degrees.
///
/// Digits beyond the seventh decimal place are cut off. `None` where `text`
/// is no decimal number or its value does not fit.
pub fn parse_degrees(text: &str) -> (r: Option<Degrees>)
    ensures
        r == match parsed_e7(text@) {
            Some(e7) => Some(Degrees { e7 }),
            None => None,
        },
{
    let chars = chars_of(text);
    match parse_e7(&chars) {
        Some(e7) => Some(Degrees { e7 }),
        None => None,
    }
}

/// The exponent that a text writes: an optional sign and one to four
/// digits. `None` for any other text.
pub open spec fn exponent_of(x: Seq<char>) -> Option<int> {
    let signed = x.len() > 0 && (x[0] == '-' || x[0] == '+');
    let digits = if signed {
        x.skip(1)
    } else {
        x
    };
    if 1 <= digits.len() <= 4 && all_digits(digits) {
        Some(
            if signed && x[0] == '-' {
                -(digits_value(digits) as int)
            } else {
                digits_value(digits) as int
            },
        )
    } else {
        None
    }
}

/// The number `n` times ten to the power `shift`, cut off to a whole
/// number.
pub open spec fn scaled(n: nat, shift: int) -> nat {
    if shift >= 0 {
        n * pow10(shift as nat)
    } else {
        n / pow10((-shift) as nat)
    }
}

/// The value in units of 1e-7 of a number in scientific notation with
/// mantissa `m` and exponent `x`, cut off after the seventh decimal place.
/// The mantissa is a decimal number of at most 18 digits.
pub open spec fn scientific_e7(m: Seq<char>, x: Seq<char>) -> Option<int> {
    match (decimal_parts(m), exponent_of(x)) {
        (Some((negative, whole, fraction)), Some(k)) => if whole.len() + fraction.len() <= 18 {
            let mag = scaled(digits_value(whole + fraction), 7 + k - fraction.len());
            Some(
                if negative {
                    -(mag as int)
                } else {
                    mag as int
                },
            )
        } else {
            None
        },
        _ => None,
    }
}

/// The value of a number in units of 1e-7: of a decimal number, or of a
/// mantissa and an exponent with an `e` between them.
pub open spec fn number_e7(s: Seq<char>) -> Option<int> {
    let e = position_from(s, 'e', 0);
    if e >= s.len() {
        decimal_e7(s)
    } else {
        scientific_e7(s.subrange(0, e), s.subrange(e + 1, s.len() as int))
    }
}

/// The value of a number in units of 1e-7 where it is one and fits into
/// 64 bits.
pub open spec fn parsed_number_e7(s: Seq<char>) -> Option<i64> {
    match number_e7(s) {
        Some(v) => if i64::MIN <= v <= i64::MAX {
            Some(v as i64)
        } else {
            None
        },
        None => None,
    }
}

/// Reads `x` as an exponent.
pub fn parse_exponent(x: &Vec<char>) -> (r: Option<i64>)
    ensures
        match r {
            Some(k) => exponent_of(x@) == Some(k as int) && -9999 <= k <= 9999,
            None => exponent_of(x@) is None,
        },
{
    let signed = x.len() > 0 && (x[0] == '-' || x[0] == '+');
    let start: usize = if signed {
        1
    } else {
        0
    };
    let ghost digits = x@.subrange(start as int, x.len() as int);
    proof {
        assert(digits =~= if signed {
            x@.skip(1)
        } else {
            x@
        });
    }
    let n = x.len() - start;
    if n < 1 || n > 4 {
        return None;
    }
    let v = match parse_digits(x, start, x.len()) {
        Some(v) => v,
        None => {
            proof {
                if all_digits(digits) {
                    lemma_digits_value_bound(digits);
                    lemma_pow10_values();
                    lemma_pow10_le(digits.len(), 4);
                }
            }
            return None;
        },
    };
    proof {
        lemma_digits_value_bound(digits);
        lemma_pow10_values();
        lemma_pow10_le(digits.len(), 4);
    }
    if signed && x[0] == '-' {
        Some(-(v as i64))
    } else {
        Some(v as i64)
    }
}

/// The number `n` times ten to the power `shift`, cut off to a whole
/// number; `None` where it exceeds 64 bits.
pub fn scale(n: u64, shift: i64) -> (r: Option<u64>)
    requires
        -20000 <= shift <= 20000,
    ensures
        match r {
            Some(v) => v == scaled(n as nat, shift as int),
            None => scaled(n as nat, shift as int) > u64::MAX,
        },
{
    let mut acc: u64 = n;
    proof {
        assert(pow10(0) == 1);
        assert(n * pow10(0) == n);
        assert(n as nat / pow10(0) == n);
    }
    if shift >= 0 {
        let mut i: i64 = 0;
        while i < shift
            invariant
                0 <= i <= shift <= 20000,
                acc == n * pow10(i as nat),
            decreases shift - i,
        {
            let ghost p = pow10(i as nat);
            proof {
                assert(pow10((i + 1) as nat) == 10 * p);
                assert(n * (10 * p) == (n * p) * 10) by (nonlinear_arith);
            }
            acc = match acc.checked_mul(10) {
                Some(v) => v,
                None => {
                    proof {
                        lemma_pow10_le((i + 1) as nat, shift as nat);
                        let q = pow10((i + 1) as nat);
                        let t = pow10(shift as nat);
                        assert(n * q <= n * t) by (nonlinear_arith)
                            requires
                                q <= t,
                                n >= 0,
                        ;
                    }
                    return None;
                },
            };
            i = i + 1;
        }
        Some(acc)
    } else {
        let mut i: i64 = 0;
        let steps: i64 = -shift;
        while i < steps
            invariant
                0 <= i <= steps <= 20000,
                steps == -shift,
                acc == n as nat / pow10(i as nat),
            decreases steps - i,
        {
            proof {
                let p = pow10(i as nat);
                lemma_pow10_at_least(i as nat);
                assert(pow10((i + 1) as nat) == p * 10);
                vstd::arithmetic::div_mod::lemma_div_denominator(n as int, p as int, 10);
            }
            acc = acc / 10;
            i = i + 1;
        }
        Some(acc)
    }
}

/// Reads `s` as a number in units of 1e-7: a decimal number, or a mantissa
/// and an exponent with an `e` between them.
///
/// Digits beyond the seventh decimal place are cut off. `None` where `s` is
/// no such number or its value does not fit into 64 bits.
pub fn parse_number_e7(s: &Vec<char>) -> (r: Option<i64>)
    ensures
        r == parsed_number_e7(s@),
{
    let e = find_char(s, 'e', 0);
    if e >= s.len() {
        return parse_e7(s);
    }
    let m = slice_chars(s, 0, e);
    let x = slice_chars(s, e + 1, s.len());
    let n = m.len();
    let negative = n > 0 && m[0] == '-';
    let start: usize = if negative {
        1
    } else {
        0
    };
    let dot = find_char(&m, '.', start);
    let fstart: usize = if dot < n {
        dot + 1
    } else {
        n
    };
    let ghost whole = m@.subrange(start as int, dot as int);
    let ghost fraction = m@.subrange(fstart as int, n as int);
    proof {
        if dot >= n {
            assert(fraction =~= Seq::<char>::empty());
        }
        assert(decimal_parts(m@) == if all_digits(whole) && all_digits(fraction) && whole.len()
            + fraction.len() >= 1 {
            Some((negative, whole, fraction))
        } else {
            None
        });
    }
    if (dot - start) + (n - fstart) == 0 {
        return None;
    }
    if !are_digits(&m, start, dot) || !are_digits(&m, fstart, n) {
        return None;
    }
    let k = match parse_exponent(&x) {
        Some(k) => k,
        None => {
            return None;
        },
    };
    if (dot - start) + (n - fstart) > 18 {
        return None;
    }
    let mut all = slice_chars(&m, start, dot);
    let frac = slice_chars(&m, fstart, n);
    push_chars(&mut all, &frac);
    proof {
        assert(all@ =~= whole + fraction);
        assert(all@.subrange(0, all.len() as int) =~= all@);
        assert forall|j: int| 0 <= j < all@.len() implies (#[trigger] digit_value(
            all@[j],
        )) is Some by {
            if j < whole.len() {
                assert(all@[j] == whole[j]);
            } else {
                assert(all@[j] == fraction[j - whole.len()]);
            }
        }
        lemma_digits_value_bound(all@);
        lemma_pow10_le(all@.len(), 18);
        assert(pow10(18) == 1_000_000_000_000_000_000) by {
            reveal_with_fuel(pow10, 19);
        }
    }
    let digits = match parse_digits(&all, 0, all.len()) {
        Some(d) => d,
        None => {
            return None;
        },
    };
    let shift: i64 = 7 + k - (n - fstart) as i64;
    let mag = match scale(digits, shift) {
        Some(v) => v,
        None => {
            return None;
        },
    };
    if negative {
        if mag > 0x8000_0000_0000_0000 {
            None
        } else if mag == 0x8000_0000_0000_0000 {
            Some(i64::MIN)
        } else {
            Some(-(mag as i64))
        }
    } else {
        if mag > 0x7fff_ffff_ffff_ffff {
            None
        } else {
            Some(mag as i64)
        }
    }
}

} // verus!
