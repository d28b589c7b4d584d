//! Lossless UTF-8 string encoding/decoding.
//!
//! Invalid bytes are replaced by two code points: the replacement character
//! (U+FFFD) followed by a code point from U+105500 to U+1055FF holding the
//! invalid byte. An input replacement character (U+FFFD) is replaced by two
//! code points: U+FFFD followed by U+105600.
use vstd::prelude::*;
use vstd::utf8::{decode_utf8, encode_scalar, encode_utf8, encode_utf8_decode_utf8, valid_utf8};

use crate::stringutil::{char_from_u32, string_push};

verus! {

/// Result of the `utf8` crate's `decode` on `input`: the characters of the
/// longest valid prefix, that prefix's byte length, and the byte length of the
/// invalid (or incomplete) sequence that follows it (0 when all is valid).
pub uninterp spec fn utf8_decode_head(input: Seq<u8>) -> (Seq<char>, nat, nat);

/// Splits off the valid UTF-8 prefix of `input` and the invalid sequence after it.
///
/// Calls `utf8::decode`. Claims: the result is `utf8_decode_head(input)`; the
/// prefix's characters encode to the first bytes of the input; an invalid
/// sequence follows unless the whole input is valid; a valid UTF-8 input
/// (which `utf8::decode` returns whole, as `std::str::from_utf8` accepts it)
/// has none. Which bytes form the invalid sequence (std's
/// `Utf8Error::error_len`) is left to the name.
#[verifier::external_body]
fn utf8_decode_prefix(input: &[u8]) -> (r: (Vec<char>, usize, usize))
    ensures
        (r.0@, r.1 as nat, r.2 as nat) == utf8_decode_head(input@),
        r.1 + r.2 <= input@.len(),
        input@.take(r.1 as int) == encode_utf8(r.0@),
        r.2 == 0 ==> r.1 == input@.len(),
        valid_utf8(input@) ==> r.2 == 0,
{
    match utf8::decode(input) {
        Ok(valid) => (valid.chars().collect(), valid.len(), 0),
        Err(utf8::DecodeError::Invalid { valid_prefix, invalid_sequence, .. }) => {
            (valid_prefix.chars().collect(), valid_prefix.len(), invalid_sequence.len())
        },
        Err(utf8::DecodeError::Incomplete { valid_prefix, incomplete_suffix }) => {
            (valid_prefix.chars().collect(), valid_prefix.len(), incomplete_suffix.buffer_len as usize)
        },
    }
}

/// Encodes one character to UTF-8.
pub(crate) fn char_utf8_bytes(c: char) -> (r: Vec<u8>)
    ensures
        r@ == encode_utf8(seq![c]),
{
    let v = c as u32;
    let mut out: Vec<u8> = Vec::new();
    if v <= 0x7F {
        out.push((v & 0x7F) as u8);
    } else if v <= 0x7FF {
        out.push(0xC0 | ((v >> 6) & 0x1F) as u8);
        out.push(0x80 | (v & 0x3F) as u8);
    } else if v <= 0xFFFF {
        out.push(0xE0 | ((v >> 12) & 0x0F) as u8);
        out.push(0x80 | ((v >> 6) & 0x3F) as u8);
        out.push(0x80 | (v & 0x3F) as u8);
    } else {
        out.push(0xF0 | ((v >> 18) & 0x7) as u8);
        out.push(0x80 | ((v >> 12) & 0x3F) as u8);
        out.push(0x80 | ((v >> 6) & 0x3F) as u8);
        out.push(0x80 | (v & 0x3F) as u8);
    }
    proof {
        let one = seq![c];
        assert(one.drop_first() =~= Seq::<char>::empty());
        assert(one[0] == c);
        assert(encode_utf8(Seq::<char>::empty()) =~= Seq::<u8>::empty());
        assert(encode_utf8(one) == encode_scalar(one[0] as u32) + encode_utf8(one.drop_first()));
        assert(encode_utf8(one) =~= encode_scalar(v));
        assert(out@ =~= encode_scalar(v));
    }
    out
}

/// Escaping of valid text: each U+FFFD becomes U+FFFD U+105600.
pub open spec fn escape_valid(cs: Seq<char>) -> Seq<char>
    decreases cs.len(),
{
    if cs.len() == 0 {
        seq![]
    } else {
        (if cs[0] == '\u{FFFD}' {
            seq!['\u{FFFD}', '\u{105600}']
        } else {
            seq![cs[0]]
        }) + escape_valid(cs.drop_first())
    }
}

/// Text without U+FFFD is left as it is by the escaping.
pub proof fn lemma_escape_valid_plain(cs: Seq<char>)
    requires
        forall|i: int| 0 <= i < cs.len() ==> cs[i] != '\u{FFFD}',
    ensures
        escape_valid(cs) == cs,
    decreases cs.len(),
{
    if cs.len() > 0 {
        lemma_escape_valid_plain(cs.drop_first());
        assert(seq![cs[0]] + cs.drop_first() =~= cs);
    }
}

/// The private-use code point holding an invalid byte.
pub open spec fn byte_char(b: u8) -> char {
    (0x105500 + b) as char
}

/// Escaping of invalid bytes: each byte becomes U+FFFD and its code point.
pub open spec fn escape_invalid(bs: Seq<u8>) -> Seq<char>
    decreases bs.len(),
{
    if bs.len() == 0 {
        seq![]
    } else {
        seq!['\u{FFFD}', byte_char(bs[0])] + escape_invalid(bs.drop_first())
    }
}

/// Lossless decoding of `input`, step by step: the valid prefix as
/// characters (U+FFFD escaped), then each invalid byte escaped, and so on.
pub open spec fn decode_steps(input: Seq<u8>) -> Seq<char>
    decreases input.len(),
{
    if input.len() == 0 {
        seq![]
    } else {
        let (cs, v, n) = utf8_decode_head(input);
        if v + n == 0 || v + n > input.len() {
            seq![]
        } else {
            escape_valid(cs) + escape_invalid(input.subrange(v as int, (v + n) as int)) + decode_steps(
                input.skip((v + n) as int),
            )
        }
    }
}

/// Lossless decoding of `input`: valid UTF-8 gives its characters with
/// each U+FFFD escaped; other input is decoded step by step.
pub open spec fn spec_decode(input: Seq<u8>) -> Seq<char> {
    if valid_utf8(input) {
        escape_valid(decode_utf8(input))
    } else {
        decode_steps(input)
    }
}

/// UTF-8 bytes of one character.
pub open spec fn char_bytes(c: char) -> Seq<u8> {
    encode_utf8(seq![c])
}

/// Bytes written for the character following an escaping U+FFFD.
pub open spec fn escaped_bytes(c: char) -> Seq<u8> {
    if 0x105500 <= (c as u32) && (c as u32) <= 0x1055FF {
        seq![((c as u32) - 0x105500) as u8]
    } else if c == '\u{105600}' {
        char_bytes('\u{FFFD}')
    } else {
        char_bytes('\u{FFFD}') + char_bytes(c)
    }
}

/// Lossless encoding of the characters `cs`, `escape` telling whether the
/// previous character was an escaping U+FFFD.
///
/// A U+FFFD that is not the last character starts an escape (dropping any
/// pending one); the character after it is decoded by [escaped_bytes].
pub open spec fn spec_encode_from(cs: Seq<char>, escape: bool) -> Seq<u8>
    decreases cs.len(),
{
    if cs.len() == 0 {
        seq![]
    } else if cs[0] == '\u{FFFD}' && cs.len() != 1 {
        spec_encode_from(cs.drop_first(), true)
    } else if escape {
        escaped_bytes(cs[0]) + spec_encode_from(cs.drop_first(), false)
    } else {
        char_bytes(cs[0]) + spec_encode_from(cs.drop_first(), false)
    }
}

/// Lossless encoding of `cs`.
pub open spec fn spec_encode(cs: Seq<char>) -> Seq<u8> {
    spec_encode_from(cs, false)
}

proof fn lemma_escape_valid_push(cs: Seq<char>, c: char)
    ensures
        escape_valid(cs.push(c)) == escape_valid(cs) + escape_valid(seq![c]),
    decreases cs.len(),
{
    if cs.len() == 0 {
        assert(cs.push(c) =~= seq![c]);
        assert(escape_valid(seq![c].drop_first()) =~= seq![]);
    } else {
        assert(cs.push(c).drop_first() =~= cs.drop_first().push(c));
        lemma_escape_valid_push(cs.drop_first(), c);
    }
}

proof fn lemma_escape_invalid_push(bs: Seq<u8>, b: u8)
    ensures
        escape_invalid(bs.push(b)) == escape_invalid(bs) + seq!['\u{FFFD}', byte_char(b)],
    decreases bs.len(),
{
    if bs.len() == 0 {
        assert(bs.push(b) =~= seq![b]);
        assert(escape_invalid(seq![b].drop_first()) =~= seq![]);
    } else {
        assert(bs.push(b).drop_first() =~= bs.drop_first().push(b));
        lemma_escape_invalid_push(bs.drop_first(), b);
    }
}


proof fn lemma_byte_char(b: u8)
    ensures
        (byte_char(b) as u32) == 0x105500 + b,
        byte_char(b) != '\u{FFFD}',
        escaped_bytes(byte_char(b)) == seq![b],
{
}

proof fn lemma_encode_escape_valid(cs: Seq<char>, rest: Seq<char>)
    ensures
        spec_encode_from(escape_valid(cs) + rest, false) == encode_utf8(cs) + spec_encode_from(
            rest,
            false,
        ),
    decreases cs.len(),
{
    if cs.len() == 0 {
        assert(escape_valid(cs) + rest =~= rest);
        assert(encode_utf8(cs) + spec_encode_from(rest, false) =~= spec_encode_from(rest, false));
    } else {
        let c = cs[0];
        let tail = escape_valid(cs.drop_first()) + rest;
        lemma_encode_escape_valid(cs.drop_first(), rest);
        if c == '\u{FFFD}' {
            let whole = seq!['\u{FFFD}', '\u{105600}'] + tail;
            assert(escape_valid(cs) + rest =~= whole);
            assert(whole.drop_first() =~= seq!['\u{105600}'] + tail);
            assert((seq!['\u{105600}'] + tail).drop_first() =~= tail);
            assert(spec_encode_from(whole, false) == spec_encode_from(seq!['\u{105600}'] + tail, true));
            assert(escaped_bytes('\u{105600}') == char_bytes('\u{FFFD}'));
            assert(seq![c].drop_first() =~= seq![]);
            assert(encode_utf8(seq![c].drop_first()) =~= Seq::<u8>::empty());
            assert(encode_utf8(cs) =~= char_bytes(c) + encode_utf8(cs.drop_first()));
        } else {
            let whole = seq![c] + tail;
            assert(escape_valid(cs) + rest =~= whole);
            assert(whole.drop_first() =~= tail);
            assert(seq![c].drop_first() =~= seq![]);
            assert(encode_utf8(seq![c].drop_first()) =~= Seq::<u8>::empty());
            assert(encode_utf8(cs) =~= char_bytes(c) + encode_utf8(cs.drop_first()));
        }
    }
}

proof fn lemma_encode_escape_invalid(bs: Seq<u8>, rest: Seq<char>)
    ensures
        spec_encode_from(escape_invalid(bs) + rest, false) == bs + spec_encode_from(rest, false),
    decreases bs.len(),
{
    if bs.len() == 0 {
        assert(escape_invalid(bs) + rest =~= rest);
        assert(bs + spec_encode_from(rest, false) =~= spec_encode_from(rest, false));
    } else {
        let b = bs[0];
        lemma_byte_char(b);
        let tail = escape_invalid(bs.drop_first()) + rest;
        lemma_encode_escape_invalid(bs.drop_first(), rest);
        let whole = seq!['\u{FFFD}', byte_char(b)] + tail;
        assert(escape_invalid(bs) + rest =~= whole);
        assert(whole.drop_first() =~= seq![byte_char(b)] + tail);
        assert((seq![byte_char(b)] + tail).drop_first() =~= tail);
        assert(spec_encode_from(whole, false) == spec_encode_from(seq![byte_char(b)] + tail, true));
        assert(spec_encode_from(seq![byte_char(b)] + tail, true) == seq![b] + spec_encode_from(
            tail,
            false,
        ));
        assert(bs =~= seq![b] + bs.drop_first());
        assert(seq![b] + (bs.drop_first() + spec_encode_from(rest, false)) =~= bs
            + spec_encode_from(rest, false));
    }
}

proof fn lemma_decode_step(input: Seq<u8>, cs: Seq<char>, v: nat, n: nat)
    requires
        input.len() > 0,
        (cs, v, n) == utf8_decode_head(input),
        v + n <= input.len(),
        input.take(v as int) == encode_utf8(cs),
        n == 0 ==> v == input.len(),
    ensures
        decode_steps(input) == escape_valid(cs) + escape_invalid(input.subrange(v as int, (v + n) as int))
            + decode_steps(input.skip((v + n) as int)),
        spec_encode(decode_steps(input)) == input.take((v + n) as int) + spec_encode(
            decode_steps(input.skip((v + n) as int)),
        ),
{
    let inv = input.subrange(v as int, (v + n) as int);
    let later = decode_steps(input.skip((v + n) as int));
    lemma_encode_escape_invalid(inv, later);
    lemma_encode_escape_valid(cs, escape_invalid(inv) + later);
    assert(escape_valid(cs) + escape_invalid(inv) + later =~= escape_valid(cs) + (escape_invalid(inv)
        + later));
    assert(input.take((v + n) as int) =~= input.take(v as int) + inv);
}

/// Appends the escaped form of valid characters.
fn push_valid(chars: &[char], output: &mut String)
    ensures
        final(output)@ == old(output)@ + escape_valid(chars@),
{
    let mut i: usize = 0;
    let ghost start = output@;
    while i < chars.len()
        invariant
            0 <= i <= chars@.len(),
            output@ == start + escape_valid(chars@.take(i as int)),
        decreases chars@.len() - i,
    {
        let c = chars[i];
        proof {
            lemma_escape_valid_push(chars@.take(i as int), c);
            assert(chars@.take(i + 1) =~= chars@.take(i as int).push(c));
            assert(escape_valid(seq![c].drop_first()) =~= seq![]);
        }
        if c == '\u{FFFD}' {
            string_push(output, '\u{FFFD}');
            string_push(output, '\u{105600}');
        } else {
            string_push(output, c);
        }
        i = i + 1;
        assert(output@ =~= start + escape_valid(chars@.take(i as int)));
    }
    assert(chars@.take(i as int) =~= chars@);
}

/// Appends the escaped form of invalid bytes.
fn push_invalid(bytes: &[u8], output: &mut String)
    ensures
        final(output)@ == old(output)@ + escape_invalid(bytes@),
{
    let mut i: usize = 0;
    let ghost start = output@;
    while i < bytes.len()
        invariant
            0 <= i <= bytes@.len(),
            output@ == start + escape_invalid(bytes@.take(i as int)),
        decreases bytes@.len() - i,
    {
        let b = bytes[i];
        proof {
            lemma_escape_invalid_push(bytes@.take(i as int), b);
            assert(bytes@.take(i + 1) =~= bytes@.take(i as int).push(b));
        }
        let c = char_from_u32(0x105500u32 + b as u32).unwrap();
        string_push(output, '\u{FFFD}');
        string_push(output, c);
        i = i + 1;
        assert(output@ =~= start + escape_invalid(bytes@.take(i as int)));
    }
    assert(bytes@.take(i as int) =~= bytes@);
}

/// Decode UTF-8 bytes to string with lossless scheme.
///
/// The decoded text is appended to `output`.
pub fn decode(input: &[u8], output: &mut String)
    ensures
        final(output)@ == old(output)@ + spec_decode(input@),
        spec_encode(spec_decode(input@)) == input@,
        valid_utf8(input@) ==> spec_decode(input@) == escape_valid(decode_utf8(input@)),
{
    let mut pos: usize = 0;
    let ghost start = output@;
    assert(input@.skip(0) =~= input@);
    assert(input@.take(0) + spec_encode(decode_steps(input@)) =~= spec_encode(decode_steps(input@)));
    while pos < input.len()
        invariant
            0 <= pos <= input@.len(),
            start + decode_steps(input@) == output@ + decode_steps(input@.skip(pos as int)),
            spec_encode(decode_steps(input@)) == input@.take(pos as int) + spec_encode(
                decode_steps(input@.skip(pos as int)),
            ),
            valid_utf8(input@) && pos > 0 ==> pos == input@.len() && decode_steps(input@)
                == escape_valid(decode_utf8(input@)),
        decreases input@.len() - pos,
    {
        let rest = &input[pos..input.len()];
        let (chars, valid_len, invalid_len) = utf8_decode_prefix(rest);
        proof {
            assert(rest@ =~= input@.skip(pos as int));
        }
        let ghost before = output@;
        proof {
            lemma_decode_step(rest@, chars@, valid_len as nat, invalid_len as nat);
            assert(input@.take(pos as int) + rest@.take((valid_len + invalid_len) as int)
                =~= input@.take(pos + valid_len + invalid_len));
        }
        push_valid(chars.as_slice(), output);
        let invalid = &rest[valid_len..valid_len + invalid_len];
        push_invalid(invalid, output);
        proof {
            assert(rest@.skip(valid_len + invalid_len) =~= input@.skip(pos + valid_len + invalid_len));
            assert(output@ =~= before + escape_valid(chars@) + escape_invalid(
                rest@.subrange(valid_len as int, valid_len + invalid_len),
            ));
        }
        proof {
            if valid_utf8(input@) && pos == 0 {
                assert(rest@ =~= input@);
                assert(input@.take(valid_len as int) =~= input@);
                encode_utf8_decode_utf8(chars@);
                assert(input@.skip(input@.len() as int) =~= Seq::<u8>::empty());
                assert(rest@.subrange(valid_len as int, valid_len + invalid_len) =~= Seq::<u8>::empty());
                assert(escape_invalid(Seq::<u8>::empty()) =~= Seq::<char>::empty());
                assert(decode_steps(input@) =~= escape_valid(decode_utf8(input@)));
            }
        }
        pos = pos + valid_len + invalid_len;
    }
    proof {
        if input@.len() == 0 {
            assert(decode_utf8(input@) =~= Seq::<char>::empty());
            assert(escape_valid(Seq::<char>::empty()) =~= Seq::<char>::empty());
        }
    }
    assert(input@.skip(pos as int) =~= seq![]);
    assert(output@ =~= start + decode_steps(input@));
    assert(input@.take(pos as int) =~= input@);
    assert(spec_encode(seq![]) =~= seq![]);
    assert(spec_decode(input@) == decode_steps(input@));
}

/// Encode string with lossless scheme to UTF-8 bytes.
///
/// The bytes are appended to `output`.
pub fn encode(input: &str, output: &mut Vec<u8>)
    ensures
        final(output)@ == old(output)@ + spec_encode(input@),
{
    let chars = crate::stringutil::str_to_chars(input);
    let ghost cs = chars@;
    let ghost start = output@;
    let mut escape = false;
    let mut i: usize = 0;
    let count = chars.len();
    assert(cs.skip(0) =~= cs);
    while i < count
        invariant
            0 <= i <= count == cs.len(),
            chars@ == cs,
            start + spec_encode(cs) == output@ + spec_encode_from(cs.skip(i as int), escape),
        decreases count - i,
    {
        let c = chars[i];
        proof {
            assert(cs.skip(i as int).drop_first() =~= cs.skip(i + 1));
            assert(cs.skip(i as int)[0] == c);
        }
        if c == '\u{FFFD}' && i != count - 1 {
            escape = true;
        } else if escape {
            let code = c as u32;
            if 0x105500u32 <= code && code <= 0x1055FFu32 {
                output.push((code - 0x105500u32) as u8);
            } else if c == '\u{105600}' {
                let bytes = char_utf8_bytes('\u{FFFD}');
                output.extend_from_slice(bytes.as_slice());
            } else {
                let bytes = char_utf8_bytes('\u{FFFD}');
                output.extend_from_slice(bytes.as_slice());
                let bytes = char_utf8_bytes(c);
                output.extend_from_slice(bytes.as_slice());
            }
            escape = false;
        } else {
            let bytes = char_utf8_bytes(c);
            output.extend_from_slice(bytes.as_slice());
        }
        i = i + 1;
    }
    assert(cs.skip(i as int) =~= seq![]);
}

/// Convenience trait for string conversion.
pub trait StringLosslessExt: Sized {
    /// Decode UTF-8 bytes to string with lossless scheme.
    fn from_utf8_lossless(input: &[u8]) -> (r: Self);

    /// Encode string with lossless scheme to UTF-8 bytes.
    fn to_utf8_lossless(&self) -> Vec<u8>;
}

impl StringLosslessExt for String {
    fn from_utf8_lossless(input: &[u8]) -> (r: String)
        ensures
            r@ == spec_decode(input@),
            spec_encode(r@) == input@,
            valid_utf8(input@) ==> r@ == escape_valid(decode_utf8(input@)),
    {
        let mut output = String::new();
        decode(input, &mut output);
        assert(output@ =~= spec_decode(input@));
        output
    }

    fn to_utf8_lossless(&self) -> (r: Vec<u8>)
        ensures
            r@ == spec_encode(self@),
    {
        let mut output = Vec::new();
        encode(self.as_str(), &mut output);
        assert(output@ =~= spec_encode(self@));
        output
    }
}

} // verus!
