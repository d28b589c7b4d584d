//! Byte scanning helpers shared by the grammars.
use vstd::prelude::*;

use crate::stringutil::{
    is_control_byte, is_digit_byte, is_hex_byte, is_space_byte, is_text_ws_byte, is_token,
    is_token_byte,
};

verus! {

/// Classes of bytes scanned by the grammars.
#[derive(Clone, Copy, PartialEq, Eq, Structural)]
pub enum ByteClass {
    /// SP or HTAB.
    Space,
    /// Token characters.
    Token,
    /// Decimal digits.
    Digit,
    /// Hexadecimal digits.
    Hex,
    /// Anything but DQUOTE, CR and LF.
    NotQuoteOrNewline,
    /// Anything but backslash and DQUOTE.
    NotBackslashOrQuote,
    /// Quoted-string text: HTAB, SP, VCHAR, obs-text except DQUOTE and backslash.
    QuotedText,
    /// Anything but a semicolon.
    NotSemicolon,
    /// Anything but ASCII control characters.
    NotControl,
    /// Anything but SP and HTAB.
    NotSpace,
    /// Anything but a comma.
    NotComma,
}

/// Whether `b` belongs to class `c`.
pub open spec fn in_class(c: ByteClass, b: u8) -> bool {
    match c {
        ByteClass::Space => is_space_byte(b),
        ByteClass::Token => is_token_byte(b),
        ByteClass::Digit => is_digit_byte(b),
        ByteClass::Hex => is_hex_byte(b),
        ByteClass::NotQuoteOrNewline => b != 0x22 && b != 0x0D && b != 0x0A,
        ByteClass::NotBackslashOrQuote => b != 0x5C && b != 0x22,
        ByteClass::QuotedText => is_text_ws_byte(b) && b != 0x22 && b != 0x5C,
        ByteClass::NotSemicolon => b != 0x3B,
        ByteClass::NotControl => !is_control_byte(b),
        ByteClass::NotSpace => !is_space_byte(b),
        ByteClass::NotComma => b != 0x2C,
    }
}

/// Returns whether `b` belongs to class `c`.
pub fn is_in_class(c: ByteClass, b: u8) -> (r: bool)
    ensures
        r == in_class(c, b),
{
    match c {
        ByteClass::Space => b == 0x20 || b == 0x09,
        ByteClass::Token => is_token(b),
        ByteClass::Digit => 0x30 <= b && b <= 0x39,
        ByteClass::Hex => (0x30 <= b && b <= 0x39) || (0x41 <= b && b <= 0x46) || (0x61 <= b && b
            <= 0x66),
        ByteClass::NotQuoteOrNewline => b != 0x22 && b != 0x0D && b != 0x0A,
        ByteClass::NotBackslashOrQuote => b != 0x5C && b != 0x22,
        ByteClass::QuotedText => (b == 0x09 || b == 0x20 || (0x21 <= b && b <= 0x7E) || b >= 0x80)
            && b != 0x22 && b != 0x5C,
        ByteClass::NotSemicolon => b != 0x3B,
        ByteClass::NotControl => !(b < 0x20 || b == 0x7F),
        ByteClass::NotSpace => !(b == 0x20 || b == 0x09),
        ByteClass::NotComma => b != 0x2C,
    }
}

/// Length of the longest prefix of `s` made of class `c` bytes.
pub open spec fn span(s: Seq<u8>, c: ByteClass) -> nat
    decreases s.len(),
{
    if s.len() > 0 && in_class(c, s[0]) {
        1 + span(s.drop_first(), c)
    } else {
        0
    }
}

/// The span is the first position not in the class.
pub proof fn lemma_span(s: Seq<u8>, c: ByteClass, i: int)
    requires
        0 <= i <= s.len(),
        forall|j: int| 0 <= j < i ==> in_class(c, #[trigger] s[j]),
        i == s.len() || !in_class(c, s[i]),
    ensures
        span(s, c) == i,
    decreases i,
{
    if i > 0 {
        assert forall|j: int| 0 <= j < i - 1 implies in_class(c, #[trigger] s.drop_first()[j]) by {
            assert(s.drop_first()[j] == s[j + 1]);
        }
        lemma_span(s.drop_first(), c, i - 1);
    }
}

/// Facts about a span: every byte inside is in the class, the next one is not.
pub proof fn lemma_span_props(s: Seq<u8>, c: ByteClass)
    ensures
        span(s, c) <= s.len(),
        forall|j: int| 0 <= j < span(s, c) ==> in_class(c, #[trigger] s[j]),
        span(s, c) == s.len() || !in_class(c, s[span(s, c) as int]),
    decreases s.len(),
{
    if s.len() > 0 && in_class(c, s[0]) {
        lemma_span_props(s.drop_first(), c);
        assert forall|j: int| 0 <= j < span(s, c) implies in_class(c, #[trigger] s[j]) by {
            if j > 0 {
                assert(s[j] == s.drop_first()[j - 1]);
            }
        }
        if span(s, c) < s.len() {
            assert(s[span(s, c) as int] == s.drop_first()[span(s.drop_first(), c) as int]);
        }
    }
}

/// Returns the length of the longest run of class `c` bytes starting at `pos`.
pub fn span_class(s: &[u8], pos: usize, c: ByteClass) -> (r: usize)
    requires
        pos <= s@.len(),
    ensures
        r == span(s@.skip(pos as int), c),
        pos + r <= s@.len(),
{
    let mut i = pos;
    while i < s.len() && is_in_class(c, s[i])
        invariant
            pos <= i <= s@.len(),
            forall|j: int| pos <= j < i ==> in_class(c, #[trigger] s@[j]),
        decreases s@.len() - i,
    {
        i = i + 1;
    }
    proof {
        let t = s@.skip(pos as int);
        assert forall|j: int| 0 <= j < i - pos implies in_class(c, #[trigger] t[j]) by {
            assert(t[j] == s@[pos + j]);
        }
        if i < s@.len() {
            assert(t[i - pos] == s@[i as int]);
        }
        lemma_span(t, c, i - pos);
    }
    i - pos
}

/// Index of the first occurrence of the two-byte pattern `a b` in `s`.
pub open spec fn find_pair(s: Seq<u8>, a: u8, b: u8) -> Option<nat>
    decreases s.len(),
{
    if s.len() < 2 {
        None
    } else if s[0] == a && s[1] == b {
        Some(0)
    } else {
        match find_pair(s.drop_first(), a, b) {
            Some(i) => Some(i + 1),
            None => None,
        }
    }
}

/// Whether the pattern `a b` occurs at position `i` of `s`.
pub open spec fn pair_at(s: Seq<u8>, i: int, a: u8, b: u8) -> bool {
    0 <= i && i + 1 < s.len() && s[i] == a && s[i + 1] == b
}

/// `find_pair` gives the first occurrence.
pub proof fn lemma_find_pair(s: Seq<u8>, a: u8, b: u8, i: int)
    requires
        0 <= i,
        forall|j: int| 0 <= j < i ==> !pair_at(s, j, a, b),
        pair_at(s, i, a, b) || i + 1 >= s.len(),
    ensures
        find_pair(s, a, b) == if pair_at(s, i, a, b) {
            Some(i as nat)
        } else {
            None::<nat>
        },
    decreases i,
{
    if s.len() >= 2 && i > 0 {
        assert(!pair_at(s, 0, a, b));
        assert forall|j: int| 0 <= j < i - 1 implies !pair_at(s.drop_first(), j, a, b) by {
            assert(!pair_at(s, j + 1, a, b));
        }
        lemma_find_pair(s.drop_first(), a, b, i - 1);
    }
}

/// Facts about `find_pair`.
pub proof fn lemma_find_pair_props(s: Seq<u8>, a: u8, b: u8)
    ensures
        match find_pair(s, a, b) {
            Some(i) => pair_at(s, i as int, a, b) && forall|j: int| 0 <= j < i ==> !pair_at(s, j, a, b),
            None => forall|j: int| !pair_at(s, j, a, b),
        },
    decreases s.len(),
{
    if s.len() >= 2 && !(s[0] == a && s[1] == b) {
        lemma_find_pair_props(s.drop_first(), a, b);
        match find_pair(s.drop_first(), a, b) {
            Some(i) => {
                assert forall|j: int| 0 <= j < i + 1 implies !pair_at(s, j, a, b) by {
                    if j > 0 {
                        assert(!pair_at(s.drop_first(), j - 1, a, b));
                    }
                }
            },
            None => {
                assert forall|j: int| !pair_at(s, j, a, b) by {
                    if j > 0 {
                        assert(!pair_at(s.drop_first(), j - 1, a, b));
                    }
                }
            },
        }
    }
}

/// Finds the first occurrence of `a b` at or after `pos`, relative to `pos`.
pub fn find_pair_from(s: &[u8], pos: usize, a: u8, b: u8) -> (r: Option<usize>)
    requires
        pos <= s@.len(),
    ensures
        match r {
            Some(i) => find_pair(s@.skip(pos as int), a, b) == Some(i as nat) && pos + i + 2 <= s@.len(),
            None => find_pair(s@.skip(pos as int), a, b) is None,
        },
{
    let ghost t = s@.skip(pos as int);
    let mut i = pos;
    while i < s.len() && i + 1 < s.len()
        invariant
            pos <= i <= s@.len(),
            t == s@.skip(pos as int),
            forall|j: int| 0 <= j < i - pos ==> !pair_at(t, j, a, b),
        decreases s@.len() - i,
    {
        if s[i] == a && s[i + 1] == b {
            proof {
                assert(pair_at(t, i - pos, a, b));
                lemma_find_pair(t, a, b, i - pos);
            }
            return Some(i - pos);
        }
        assert(!pair_at(t, i - pos, a, b));
        i = i + 1;
    }
    proof {
        lemma_find_pair(t, a, b, i - pos);
    }
    None
}

/// Index of the first occurrence of byte `b` in `s`.
pub open spec fn find_byte(s: Seq<u8>, b: u8) -> Option<nat>
    decreases s.len(),
{
    if s.len() == 0 {
        None
    } else if s[0] == b {
        Some(0)
    } else {
        match find_byte(s.drop_first(), b) {
            Some(i) => Some(i + 1),
            None => None,
        }
    }
}

pub proof fn lemma_find_byte(s: Seq<u8>, b: u8, i: int)
    requires
        0 <= i <= s.len(),
        forall|j: int| 0 <= j < i ==> s[j] != b,
        i == s.len() || s[i] == b,
    ensures
        find_byte(s, b) == if i < s.len() {
            Some(i as nat)
        } else {
            None::<nat>
        },
    decreases i,
{
    if i > 0 {
        assert forall|j: int| 0 <= j < i - 1 implies s.drop_first()[j] != b by {
            assert(s.drop_first()[j] == s[j + 1]);
        }
        lemma_find_byte(s.drop_first(), b, i - 1);
    }
}

/// Facts about `find_byte`.
pub proof fn lemma_find_byte_props(s: Seq<u8>, b: u8)
    ensures
        match find_byte(s, b) {
            Some(i) => i < s.len() && s[i as int] == b && forall|j: int| 0 <= j < i ==> s[j] != b,
            None => forall|j: int| 0 <= j < s.len() ==> s[j] != b,
        },
    decreases s.len(),
{
    if s.len() > 0 && s[0] != b {
        lemma_find_byte_props(s.drop_first(), b);
        assert forall|j: int| 0 < j < s.len() implies s[j] == s.drop_first()[j - 1] by {}
    }
}

/// Finds the first occurrence of `b` at or after `pos`, relative to `pos`.
pub fn find_byte_from(s: &[u8], pos: usize, b: u8) -> (r: Option<usize>)
    requires
        pos <= s@.len(),
    ensures
        match r {
            Some(i) => find_byte(s@.skip(pos as int), b) == Some(i as nat) && pos + i < s@.len(),
            None => find_byte(s@.skip(pos as int), b) is None,
        },
{
    let ghost t = s@.skip(pos as int);
    let mut i = pos;
    while i < s.len()
        invariant
            pos <= i <= s@.len(),
            t == s@.skip(pos as int),
            forall|j: int| 0 <= j < i - pos ==> t[j] != b,
        decreases s@.len() - i,
    {
        if s[i] == b {
            proof {
                lemma_find_byte(t, b, i - pos);
            }
            return Some(i - pos);
        }
        i = i + 1;
    }
    proof {
        lemma_find_byte(t, b, i - pos);
    }
    None
}

/// Length of a line ending (LF or CRLF) at the start of `s`, 0 if none.
pub open spec fn line_ending_len(s: Seq<u8>) -> nat {
    if s.len() >= 1 && s[0] == 0x0A {
        1
    } else if s.len() >= 2 && s[0] == 0x0D && s[1] == 0x0A {
        2
    } else {
        0
    }
}

/// Returns the length of a line ending (LF or CRLF) at `pos`, 0 if none.
pub fn line_ending_at(s: &[u8], pos: usize) -> (r: usize)
    requires
        pos <= s@.len(),
    ensures
        r == line_ending_len(s@.skip(pos as int)),
        pos + r <= s@.len(),
{
    if pos < s.len() && s[pos] == 0x0A {
        1
    } else if pos < s.len() && pos + 1 < s.len() && s[pos] == 0x0D && s[pos + 1] == 0x0A {
        2
    } else {
        0
    }
}

/// Copies `s[start..end]`.
pub fn copy_range(s: &[u8], start: usize, end: usize) -> (r: Vec<u8>)
    requires
        start <= end <= s@.len(),
    ensures
        r@ == s@.subrange(start as int, end as int),
{
    let mut out: Vec<u8> = Vec::new();
    out.extend_from_slice(&s[start..end]);
    assert(out@ =~= s@.subrange(start as int, end as int));
    out
}

} // verus!
