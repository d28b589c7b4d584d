//! Character classes and small string helpers shared by the parsers.
use vstd::prelude::*;

verus! {

/// Appends one character to a `String`.
///
/// Calls `String::push`; claims the new contents are the old ones followed by `c`.
#[verifier::external_body]
pub(crate) fn string_push(s: &mut String, c: char)
    ensures
        final(s)@ == old(s)@.push(c),
{
    s.push(c);
}

/// Appends a string slice to a `String`.
///
/// Calls `String::push_str`; claims the new contents are the old ones followed by `t`.
#[verifier::external_body]
pub(crate) fn string_push_str(s: &mut String, t: &str)
    ensures
        final(s)@ == old(s)@ + t@,
{
    s.push_str(t);
}

/// Converts a `u32` to a `char` when it is a Unicode scalar value.
///
/// Calls `char::from_u32`; claims `Some` exactly for scalar values, holding that value.
#[verifier::external_body]
pub(crate) fn char_from_u32(v: u32) -> (r: Option<char>)
    ensures
        r == (if v <= 0xD7FF || (0xE000 <= v && v <= 0x10FFFF) {
            Some(v as char)
        } else {
            None::<char>
        }),
{
    char::from_u32(v)
}

/// ASCII lower-casing of one character.
pub open spec fn lower_char(c: char) -> char {
    if 'A' <= c && c <= 'Z' {
        ((c as u32) + 32) as char
    } else {
        c
    }
}

/// ASCII lower-casing of a character sequence.
pub open spec fn lower_chars(s: Seq<char>) -> Seq<char> {
    s.map_values(|c: char| lower_char(c))
}

/// ASCII lower-casing of one byte.
pub open spec fn lower_byte(b: u8) -> u8 {
    if 0x41 <= b && b <= 0x5A {
        (b + 32) as u8
    } else {
        b
    }
}

/// Returns the ASCII lower-case form of a character.
pub fn to_lower_char(c: char) -> (r: char)
    ensures
        r == lower_char(c),
{
    if 'A' <= c && c <= 'Z' {
        let v: u8 = (c as u8) + 32;
        v as char
    } else {
        c
    }
}

/// Returns the ASCII lower-case form of a byte.
pub fn to_lower_byte(b: u8) -> (r: u8)
    ensures
        r == lower_byte(b),
{
    if 0x41 <= b && b <= 0x5A {
        b + 32
    } else {
        b
    }
}

/// Whether the octet is an ASCII letter or digit.
pub open spec fn is_alnum_byte(b: u8) -> bool {
    (0x30 <= b && b <= 0x39) || (0x41 <= b && b <= 0x5A) || (0x61 <= b && b <= 0x7A)
}

/// Whether the octet is valid as an RFC 9110 "token" character.
pub open spec fn is_token_byte(b: u8) -> bool {
    is_alnum_byte(b) || b == 0x21 || b == 0x23 || b == 0x24 || b == 0x25 || b == 0x26
        || b == 0x27 || b == 0x2A || b == 0x2B || b == 0x2D || b == 0x2E || b == 0x5E
        || b == 0x5F || b == 0x60 || b == 0x7C || b == 0x7E
}

/// Whether the octet is "obs-text".
pub open spec fn is_obs_text_byte(b: u8) -> bool {
    b >= 0x80
}

/// Whether the octet is allowed in a quoted-string: HTAB, SP, VCHAR, obs-text.
pub open spec fn is_text_ws_byte(b: u8) -> bool {
    b == 0x09 || b == 0x20 || (0x21 <= b && b <= 0x7E) || is_obs_text_byte(b)
}

/// Whether the octet is a space or horizontal tab.
pub open spec fn is_space_byte(b: u8) -> bool {
    b == 0x20 || b == 0x09
}

/// Whether the octet is an ASCII decimal digit.
pub open spec fn is_digit_byte(b: u8) -> bool {
    0x30 <= b && b <= 0x39
}

/// Whether the octet is an ASCII hexadecimal digit.
pub open spec fn is_hex_byte(b: u8) -> bool {
    is_digit_byte(b) || (0x41 <= b && b <= 0x46) || (0x61 <= b && b <= 0x66)
}

/// Whether the octet is an ASCII control character.
pub open spec fn is_control_byte(b: u8) -> bool {
    b < 0x20 || b == 0x7F
}

/// Whether the character is ASCII whitespace removed by trimming.
pub open spec fn is_trim_char(c: char) -> bool {
    c == ' ' || c == '\t' || c == '\r' || c == '\n' || c == '\x0c'
}

/// Returns whether the octet is a token character.
pub fn is_token(b: u8) -> (r: bool)
    ensures
        r == is_token_byte(b),
{
    (0x30 <= b && b <= 0x39) || (0x41 <= b && b <= 0x5A) || (0x61 <= b && b <= 0x7A) || b
        == 0x21 || b == 0x23 || b == 0x24 || b == 0x25 || b == 0x26 || b == 0x27 || b == 0x2A
        || b == 0x2B || b == 0x2D || b == 0x2E || b == 0x5E || b == 0x5F || b == 0x60 || b
        == 0x7C || b == 0x7E
}

/// Returns whether the octet is allowed inside a quoted-string.
pub fn is_text_ws(b: u8) -> (r: bool)
    ensures
        r == is_text_ws_byte(b),
{
    b == 0x09 || b == 0x20 || (0x21 <= b && b <= 0x7E) || b >= 0x80
}

/// Number of leading characters removed by trimming.
pub open spec fn trim_start_len(s: Seq<char>) -> nat
    decreases s.len(),
{
    if s.len() > 0 && is_trim_char(s[0]) {
        1 + trim_start_len(s.drop_first())
    } else {
        0
    }
}

/// Number of trailing characters removed by trimming.
pub open spec fn trim_end_len(s: Seq<char>) -> nat
    decreases s.len(),
{
    if s.len() > 0 && is_trim_char(s.last()) {
        1 + trim_end_len(s.drop_last())
    } else {
        0
    }
}

/// The sequence with leading ASCII whitespace removed.
pub open spec fn trim_start(s: Seq<char>) -> Seq<char> {
    s.skip(trim_start_len(s) as int)
}

/// The sequence with leading and trailing ASCII whitespace removed.
pub open spec fn trim(s: Seq<char>) -> Seq<char> {
    let t = trim_start(s);
    t.take(t.len() - trim_end_len(t))
}

proof fn lemma_trim_start_len(s: Seq<char>, i: int)
    requires
        0 <= i <= s.len(),
        forall|j: int| 0 <= j < i ==> is_trim_char(#[trigger] s[j]),
        i == s.len() || !is_trim_char(s[i]),
    ensures
        trim_start_len(s) == i,
    decreases i,
{
    if i > 0 {
        lemma_trim_start_len(s.drop_first(), i - 1);
    }
}

proof fn lemma_trim_end_len(s: Seq<char>, i: int)
    requires
        0 <= i <= s.len(),
        forall|j: int| s.len() - i <= j < s.len() ==> is_trim_char(#[trigger] s[j]),
        i == s.len() || !is_trim_char(s[s.len() - i - 1]),
    ensures
        trim_end_len(s) == i,
    decreases i,
{
    if i > 0 {
        lemma_trim_end_len(s.drop_last(), i - 1);
    }
}

/// Builds a `String` from a sequence of characters.
pub fn chars_to_string(chars: &[char]) -> (r: String)
    ensures
        r@ == chars@,
{
    let mut out = String::new();
    let mut i: usize = 0;
    while i < chars.len()
        invariant
            0 <= i <= chars@.len(),
            out@ == chars@.take(i as int),
        decreases chars@.len() - i,
    {
        string_push(&mut out, chars[i]);
        i = i + 1;
        assert(chars@.take(i as int) =~= chars@.take((i - 1) as int).push(chars@[i - 1]));
    }
    assert(chars@.take(i as int) =~= chars@);
    out
}

/// Collects the characters of a string slice.
pub fn str_to_chars(s: &str) -> (r: Vec<char>)
    ensures
        r@ == s@,
{
    let mut out: Vec<char> = Vec::new();
    broadcast use vstd::string::axiom_spec_iter;

    for c in it: s.chars()
        invariant
            it.seq() == s@,
            out@ == it.seq().take(it.index() as int),
    {
        out.push(c);
    }
    out
}

/// Returns the characters with leading and trailing ASCII whitespace removed.
pub fn trim_chars(s: &[char]) -> (r: Vec<char>)
    ensures
        r@ == trim(s@),
{
    let mut start: usize = 0;
    while start < s.len() && (s[start] == ' ' || s[start] == '\t' || s[start] == '\r' || s[start]
        == '\n' || s[start] == '\x0c')
        invariant
            0 <= start <= s@.len(),
            forall|j: int| 0 <= j < start ==> is_trim_char(#[trigger] s@[j]),
        decreases s@.len() - start,
    {
        start = start + 1;
    }
    proof {
        lemma_trim_start_len(s@, start as int);
    }
    let ghost t = s@.skip(start as int);
    let mut end: usize = s.len();
    while end > start && (s[end - 1] == ' ' || s[end - 1] == '\t' || s[end - 1] == '\r' || s[end
        - 1] == '\n' || s[end - 1] == '\x0c')
        invariant
            start <= end <= s@.len(),
            t == s@.skip(start as int),
            forall|j: int| end <= j < s@.len() ==> is_trim_char(#[trigger] s@[j]),
        decreases end,
    {
        end = end - 1;
    }
    proof {
        let k = (s@.len() - end) as int;
        assert forall|j: int| t.len() - k <= j < t.len() implies is_trim_char(#[trigger] t[j]) by {
            assert(t[j] == s@[start + j]);
        }
        if k != t.len() {
            assert(t[t.len() - k - 1] == s@[end - 1]);
        }
        lemma_trim_end_len(t, k);
    }
    let mut out: Vec<char> = Vec::new();
    let mut i = start;
    while i < end
        invariant
            start <= i <= end <= s@.len(),
            out@ == s@.subrange(start as int, i as int),
        decreases end - i,
    {
        out.push(s[i]);
        i = i + 1;
        assert(s@.subrange(start as int, i as int) =~= s@.subrange(start as int, i - 1).push(
            s@[i - 1],
        ));
    }
    assert(out@ =~= trim(s@));
    out
}

/// Returns the ASCII lower-case form of a character sequence.
pub fn lower_char_vec(s: &[char]) -> (r: Vec<char>)
    ensures
        r@ == lower_chars(s@),
{
    let mut out: Vec<char> = Vec::new();
    let mut i: usize = 0;
    while i < s.len()
        invariant
            0 <= i <= s@.len(),
            out@ == lower_chars(s@.take(i as int)),
        decreases s@.len() - i,
    {
        out.push(to_lower_char(s[i]));
        i = i + 1;
        assert(lower_chars(s@.take(i as int)) =~= lower_chars(s@.take(i - 1)).push(
            lower_char(s@[i - 1]),
        ));
    }
    assert(s@.take(i as int) =~= s@);
    out
}

/// Decodes bytes with the lossless scheme and removes surrounding ASCII whitespace.
pub fn decode_and_trim_to_string(bytes: &[u8]) -> (r: String)
    ensures
        r@ == trim(crate::stringesc::spec_decode(bytes@)),
{
    let mut text = String::new();
    crate::stringesc::decode(bytes, &mut text);
    assert(text@ =~= crate::stringesc::spec_decode(bytes@));
    let chars = str_to_chars(text.as_str());
    let trimmed = trim_chars(chars.as_slice());
    chars_to_string(trimmed.as_slice())
}

/// Returns the ASCII lower-case form of a string.
pub fn to_ascii_lowercase(s: &str) -> (r: String)
    ensures
        r@ == lower_chars(s@),
{
    let chars = str_to_chars(s);
    let lowered = lower_char_vec(chars.as_slice());
    chars_to_string(lowered.as_slice())
}

/// Whether two strings hold the same characters.
pub fn str_eq(a: &str, b: &str) -> (r: bool)
    ensures
        r == (a@ == b@),
{
    let x = str_to_chars(a);
    let y = str_to_chars(b);
    if x.len() != y.len() {
        return false;
    }
    let mut i: usize = 0;
    while i < x.len()
        invariant
            0 <= i <= x@.len(),
            x@ == a@,
            y@ == b@,
            x@.len() == y@.len(),
            forall|j: int| 0 <= j < i ==> x@[j] == y@[j],
        decreases x@.len() - i,
    {
        if x[i] != y[i] {
            assert(x@[i as int] != y@[i as int]);
            return false;
        }
        i = i + 1;
    }
    assert(x@ =~= y@);
    true
}

} // verus!
