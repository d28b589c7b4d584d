//! Decimal and hexadecimal numerals.
use vstd::prelude::*;

use crate::stringutil::{is_digit_byte, is_hex_byte};

verus! {

/// Value of an ASCII hexadecimal digit.
pub open spec fn hex_digit_value(b: u8) -> nat {
    if 0x30 <= b && b <= 0x39 {
        (b - 0x30) as nat
    } else if 0x41 <= b && b <= 0x46 {
        (b - 0x41 + 10) as nat
    } else {
        (b - 0x61 + 10) as nat
    }
}

/// Value of a numeral in base `base` (10 or 16).
pub open spec fn numeral_value(d: Seq<u8>, base: nat) -> nat
    decreases d.len(),
{
    if d.len() == 0 {
        0
    } else {
        numeral_value(d.drop_last(), base) * base + hex_digit_value(d.last())
    }
}

/// Decimal value of ASCII digits.
pub open spec fn dec_value(d: Seq<u8>) -> nat {
    numeral_value(d, 10)
}

/// Hexadecimal value of ASCII hex digits.
pub open spec fn hex_value(d: Seq<u8>) -> nat {
    numeral_value(d, 16)
}

proof fn lemma_numeral_take(d: Seq<u8>, base: nat, i: int)
    requires
        0 <= i < d.len(),
    ensures
        numeral_value(d.take(i + 1), base) == numeral_value(d.take(i), base) * base
            + hex_digit_value(d[i]),
{
    assert(d.take(i + 1).drop_last() =~= d.take(i));
}

proof fn lemma_numeral_grows(d: Seq<u8>, base: nat, i: int)
    requires
        0 <= i <= d.len(),
        base >= 1,
    ensures
        numeral_value(d.take(i), base) <= numeral_value(d, base),
    decreases d.len() - i,
{
    if i < d.len() {
        lemma_numeral_grows(d, base, i + 1);
        lemma_numeral_take(d, base, i);
        assert(numeral_value(d.take(i), base) * base >= numeral_value(d.take(i), base)) by (
        nonlinear_arith)
            requires
                base >= 1,
        ;
    } else {
        assert(d.take(i) =~= d);
    }
}

/// Parses `s[start..end]`, made of digits of `base` (10 or 16), when its
/// value is at most `limit`.
pub fn parse_numeral(s: &[u8], start: usize, end: usize, base: u64, limit: u64) -> (r: Option<u64>)
    requires
        start <= end <= s@.len(),
        base == 10 || base == 16,
        forall|j: int|
            start <= j < end ==> if base == 10 {
                is_digit_byte(#[trigger] s@[j])
            } else {
                is_hex_byte(s@[j])
            },
    ensures
        match r {
            Some(v) => v == numeral_value(s@.subrange(start as int, end as int), base as nat) && v
                <= limit,
            None => numeral_value(s@.subrange(start as int, end as int), base as nat) > limit,
        },
{
    let ghost d = s@.subrange(start as int, end as int);
    let mut value: u64 = 0;
    let mut i = start;
    assert(d.take(0) =~= Seq::<u8>::empty());
    while i < end
        invariant
            start <= i <= end <= s@.len(),
            d == s@.subrange(start as int, end as int),
            base == 10 || base == 16,
            forall|j: int|
                start <= j < end ==> if base == 10 {
                    is_digit_byte(#[trigger] s@[j])
                } else {
                    is_hex_byte(s@[j])
                },
            value == numeral_value(d.take(i - start), base as nat),
            value <= limit,
        decreases end - i,
    {
        let b = s[i];
        let digit: u64 = if 0x30 <= b && b <= 0x39 {
            (b - 0x30) as u64
        } else if 0x41 <= b && b <= 0x46 {
            (b - 0x41 + 10) as u64
        } else {
            (b - 0x61 + 10) as u64
        };
        proof {
            lemma_numeral_take(d, base as nat, i - start);
            assert(d[i - start] == b);
        }
        if digit > limit || value > (limit - digit) / base {
            proof {
                if digit <= limit {
                    assert(value * base + digit > limit) by (nonlinear_arith)
                        requires
                            value > (limit - digit) / base as int,
                            base > 0,
                            digit <= limit,
                    ;
                }
                lemma_numeral_grows(d, base as nat, i + 1 - start);
            }
            return None;
        }
        assert(value * base + digit <= limit) by (nonlinear_arith)
            requires
                value <= (limit - digit) / base as int,
                base > 0,
                digit <= limit,
        ;
        value = value * base + digit;
        i = i + 1;
    }
    assert(d.take(i - start) =~= d);
    Some(value)
}

/// Decimal digits of `v`, most significant first, without leading zeros ("0" for zero).
pub open spec fn dec_digits(v: nat) -> Seq<u8>
    decreases v,
{
    if v < 10 {
        seq![(v + 0x30) as u8]
    } else {
        dec_digits(v / 10).push(((v % 10) + 0x30) as u8)
    }
}

/// The decimal digits of a number are digits, at least one, and read back as the number.
pub proof fn lemma_dec_digits(v: nat)
    ensures
        dec_digits(v).len() >= 1,
        forall|i: int| 0 <= i < dec_digits(v).len() ==> is_digit_byte(#[trigger] dec_digits(v)[i]),
        dec_value(dec_digits(v)) == v,
    decreases v,
{
    if v >= 10 {
        lemma_dec_digits(v / 10);
        let d = dec_digits(v / 10);
        let last = ((v % 10) + 0x30) as u8;
        assert(d.push(last).drop_last() =~= d);
        assert(dec_digits(v) == d.push(last));
        assert(hex_digit_value(last) == v % 10);
        assert(dec_value(dec_digits(v)) == dec_value(d) * 10 + v % 10);
        vstd::arithmetic::div_mod::lemma_fundamental_div_mod(v as int, 10);
        assert((v / 10) * 10 == 10 * (v / 10)) by (nonlinear_arith);
    } else {
        let x = (v + 0x30) as u8;
        assert(seq![x].drop_last() =~= Seq::<u8>::empty());
        assert(dec_value(dec_digits(v)) == numeral_value(Seq::<u8>::empty(), 10) * 10 + hex_digit_value(x));
    }
}

/// Appends the decimal digits of `v`.
pub fn push_decimal(out: &mut Vec<u8>, v: u64)
    ensures
        final(out)@ == old(out)@ + dec_digits(v as nat),
    decreases v,
{
    if v < 10 {
        out.push((v + 0x30) as u8);
        assert(dec_digits(v as nat) =~= seq![(v + 0x30) as u8]);
    } else {
        push_decimal(out, v / 10);
        out.push(((v % 10) + 0x30) as u8);
    }
}

/// Decimal digits of `v`, left-padded with zeros to at least three digits.
pub open spec fn dec_digits_pad3(v: nat) -> Seq<u8> {
    if v < 10 {
        seq![0x30u8, 0x30u8] + dec_digits(v)
    } else if v < 100 {
        seq![0x30u8] + dec_digits(v)
    } else {
        dec_digits(v)
    }
}

/// Leading zeros do not change the value of a numeral.
proof fn lemma_leading_zero(d: Seq<u8>)
    ensures
        dec_value(seq![0x30u8] + d) == dec_value(d),
    decreases d.len(),
{
    let z = seq![0x30u8] + d;
    if d.len() == 0 {
        assert(z.drop_last() =~= Seq::<u8>::empty());
        assert(z.last() == 0x30u8);
        assert(numeral_value(z, 10) == numeral_value(Seq::<u8>::empty(), 10) * 10 + hex_digit_value(0x30u8));
    } else {
        lemma_leading_zero(d.drop_last());
        assert(z.drop_last() =~= seq![0x30u8] + d.drop_last());
        assert(z.last() == d.last());
        assert(numeral_value(z, 10) == numeral_value(z.drop_last(), 10) * 10 + hex_digit_value(z.last()));
        assert(numeral_value(d, 10) == numeral_value(d.drop_last(), 10) * 10 + hex_digit_value(d.last()));
    }
}

/// The zero-padded digits of a number are digits, at least three, and read back as the number.
pub proof fn lemma_dec_digits_pad3(v: nat)
    ensures
        dec_digits_pad3(v).len() >= 3,
        forall|i: int|
            0 <= i < dec_digits_pad3(v).len() ==> is_digit_byte(#[trigger] dec_digits_pad3(v)[i]),
        dec_value(dec_digits_pad3(v)) == v,
{
    lemma_dec_digits(v);
    let d = dec_digits(v);
    if v < 10 {
        lemma_leading_zero(d);
        lemma_leading_zero(seq![0x30u8] + d);
        assert(seq![0x30u8, 0x30u8] + d =~= seq![0x30u8] + (seq![0x30u8] + d));
        assert(d.len() == 1);
    } else if v < 100 {
        lemma_leading_zero(d);
        assert(d.len() >= 2) by {
            assert(dec_digits(v) == dec_digits(v / 10).push(((v % 10) + 0x30) as u8));
            lemma_dec_digits(v / 10);
        }
    } else {
        assert(d.len() >= 3) by {
            assert(dec_digits(v) == dec_digits(v / 10).push(((v % 10) + 0x30) as u8));
            assert(dec_digits(v / 10) == dec_digits(v / 100).push((((v / 10) % 10) + 0x30) as u8));
            lemma_dec_digits(v / 100);
        }
    }
}

/// Appends the decimal digits of `v`, zero-padded to three digits.
pub fn push_decimal_pad3(out: &mut Vec<u8>, v: u64)
    ensures
        final(out)@ == old(out)@ + dec_digits_pad3(v as nat),
{
    if v < 10 {
        out.push(0x30);
        out.push(0x30);
    } else if v < 100 {
        out.push(0x30);
    }
    let ghost mid = out@;
    push_decimal(out, v);
    assert(out@ =~= old(out)@ + dec_digits_pad3(v as nat));
}

/// Bytes read as characters, one for one (for ASCII text).
pub open spec fn ascii_chars(b: Seq<u8>) -> Seq<char> {
    b.map_values(|x: u8| x as char)
}

/// Appends the bytes as characters, one for one.
pub fn push_ascii(out: &mut String, bytes: &[u8])
    ensures
        final(out)@ == old(out)@ + ascii_chars(bytes@),
{
    let mut i: usize = 0;
    while i < bytes.len()
        invariant
            0 <= i <= bytes@.len(),
            out@ == old(out)@ + ascii_chars(bytes@.take(i as int)),
        decreases bytes@.len() - i,
    {
        crate::stringutil::string_push(out, bytes[i] as char);
        i = i + 1;
        assert(ascii_chars(bytes@.take(i as int)) =~= ascii_chars(bytes@.take(i - 1)).push(
            bytes@[i - 1] as char,
        ));
    }
    assert(bytes@.take(i as int) =~= bytes@);
}

} // verus!
