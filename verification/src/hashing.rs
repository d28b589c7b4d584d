//! Non-cryptographic hashing of names and its hexadecimal form.
use vstd::prelude::*;

use crate::stringutil::string_push;

verus! {

/// Result of the `mx3` crate's version 3 hash of `data` with `seed`.
pub uninterp spec fn mx3_v3_hash(data: Seq<u8>, seed: u64) -> u64;

/// Hashes `data` with the mx3 (version 3) algorithm.
///
/// Calls `mx3::v3::hash`; claims only that the result is `mx3_v3_hash(data, seed)`.
#[verifier::external_body]
pub(crate) fn mx3_hash(data: &[u8], seed: u64) -> (r: u64)
    ensures
        r == mx3_v3_hash(data@, seed),
{
    mx3::v3::hash(data, seed)
}

/// The lower-case hexadecimal digit for `d` (less than 16).
pub open spec fn hex_char(d: nat) -> char {
    if d < 10 {
        ((d + 0x30) as u32) as char
    } else {
        ((d - 10 + 0x61) as u32) as char
    }
}

/// The lowest `n` hexadecimal digits of `v`, most significant first.
pub open spec fn hex_digits(v: nat, n: nat) -> Seq<char>
    decreases n,
{
    if n == 0 {
        seq![]
    } else {
        hex_digits(v / 16, (n - 1) as nat).push(hex_char(v % 16))
    }
}

/// `v` as 16 lower-case hexadecimal digits, zero-padded.
pub open spec fn hex16(v: u64) -> Seq<char> {
    hex_digits(v as nat, 16)
}

fn push_hex_digits(out: &mut String, v: u64, n: u64)
    ensures
        final(out)@ == old(out)@ + hex_digits(v as nat, n as nat),
    decreases n,
{
    if n > 0 {
        push_hex_digits(out, v / 16, n - 1);
        let d = v % 16;
        let c: char = if d < 10 {
            ((d + 0x30) as u8) as char
        } else {
            ((d - 10 + 0x61) as u8) as char
        };
        assert(c == hex_char((v % 16) as nat));
        string_push(out, c);
    } else {
        assert(hex_digits(v as nat, 0) =~= Seq::<char>::empty());
        assert(out@ =~= old(out)@ + Seq::<char>::empty());
    }
}

/// Appends `v` as 16 lower-case hexadecimal digits, zero-padded.
pub fn push_hex16(out: &mut String, v: u64)
    ensures
        final(out)@ == old(out)@ + hex16(v),
{
    push_hex_digits(out, v, 16);
}

} // verus!
