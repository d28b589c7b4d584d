//! Decoding of header data into name-value fields.
use vstd::prelude::*;
use vstd::utf8::encode_utf8;

use super::{name_view, FieldName, FieldPair, FieldPairView, FieldValue, FieldValueView, HeaderMap};
use crate::error::{spec_error_at, ParseError};
use crate::scan::{
    copy_range, find_byte, find_byte_from, find_pair, find_pair_from, lemma_find_pair_props,
    lemma_span_props, line_ending_at, line_ending_len, span, span_class, ByteClass,
};
use crate::stringesc::{spec_decode, StringLosslessExt};
use crate::stringutil::{decode_and_trim_to_string, trim};

verus! {

/// Result of the `rustyknife` crate's RFC 2047 `encoded_word` decoding of
/// `word`: the decoded text, or `None` when it is not a decodable encoded-word.
pub uninterp spec fn rfc2047_encoded_word(word: Seq<u8>) -> Option<Seq<char>>;

/// Decodes an RFC 2047 encoded-word such as `=?ISO-8859-1?Q?a?=`.
///
/// Calls `rustyknife::rfc2047::encoded_word`. Claims only that the result is
/// `rfc2047_encoded_word(word)`; charset decoding is left to that name.
#[verifier::external_body]
fn decode_encoded_word(word: &[u8]) -> (r: Option<String>)
    ensures
        match r {
            Some(t) => rfc2047_encoded_word(word@) == Some(t@),
            None => rfc2047_encoded_word(word@) is None,
        },
{
    match rustyknife::rfc2047::encoded_word(word) {
        Ok((_, decoded)) => Some(decoded),
        Err(_) => None,
    }
}

/// Length of a quoted-string kept unchanged: a DQUOTE, either a run of
/// bytes other than backslash and DQUOTE or an escaped DQUOTE, and a DQUOTE.
pub open spec fn quoted_len(s: Seq<u8>) -> Option<nat> {
    if s.len() >= 1 && s[0] == 0x22 {
        let n = span(s.drop_first(), ByteClass::NotBackslashOrQuote);
        if n >= 1 {
            if 1 + n < s.len() && s[(1 + n) as int] == 0x22 {
                Some(n + 2)
            } else {
                None
            }
        } else if s.len() >= 3 && s[1] == 0x5C && s[2] == 0x22 {
            if s.len() >= 4 && s[3] == 0x22 {
                Some(4)
            } else {
                None
            }
        } else {
            None
        }
    } else {
        None
    }
}

/// Length of an encoded-word `=?...?=`, ending at the first `?=` of the input.
pub open spec fn encoded_word_len(s: Seq<u8>) -> Option<nat> {
    if s.len() >= 2 && s[0] == 0x3D && s[1] == 0x3F && find_pair(s.skip(2), 0x3F, 0x3D) is Some {
        match find_pair(s, 0x3F, 0x3D) {
            Some(i) => Some(i + 2),
            None => None,
        }
    } else {
        None
    }
}

/// Bytes an encoded-word contributes: its decoded text, or itself unchanged.
pub open spec fn encoded_word_output(word: Seq<u8>) -> Seq<u8> {
    match rfc2047_encoded_word(word) {
        Some(t) => encode_utf8(t),
        None => word,
    }
}

/// Length of a folded-line separator: a line ending followed by spaces.
pub open spec fn folded_len(s: Seq<u8>) -> Option<nat> {
    let le = line_ending_len(s);
    if le > 0 && span(s.skip(le as int), ByteClass::Space) > 0 {
        Some(le + span(s.skip(le as int), ByteClass::Space))
    } else {
        None
    }
}

/// Length of spaces followed by the start of an encoded-word.
pub open spec fn word_space_len(s: Seq<u8>) -> Option<nat> {
    let sp = span(s, ByteClass::Space);
    if sp > 0 && s.len() >= sp + 2 && s[sp as int] == 0x3D && s[(sp + 1) as int] == 0x3F {
        Some(sp)
    } else {
        None
    }
}

/// Length of literal text: the shorter of the run of bytes other than DQUOTE,
/// CR, LF and the text before the first `=?`.
pub open spec fn literal_len(s: Seq<u8>) -> Option<nat> {
    let a = span(s, ByteClass::NotQuoteOrNewline);
    match find_pair(s, 0x3D, 0x3F) {
        Some(p) => if a >= 1 && a < p {
            Some(a)
        } else {
            Some(p)
        },
        None => if a >= 1 {
            Some(a)
        } else {
            None
        },
    }
}

/// One fragment of a field value: its length and the bytes it contributes.
pub open spec fn value_step(s: Seq<u8>) -> Option<(nat, Seq<u8>)> {
    match quoted_len(s) {
        Some(n) => Some((n, s.take(n as int))),
        None => match encoded_word_len(s) {
            Some(n) => Some((n, encoded_word_output(s.take(n as int)))),
            None => match folded_len(s) {
                Some(n) => Some((n, seq![0x20u8])),
                None => match word_space_len(s) {
                    Some(n) => Some((n, seq![])),
                    None => match literal_len(s) {
                        Some(n) => Some((n, s.take(n as int))),
                        None => None,
                    },
                },
            },
        },
    }
}

/// A field value: the fragments repeated while one matches; `None` when a
/// fragment matches without consuming input.
pub open spec fn field_value(s: Seq<u8>) -> Option<(nat, Seq<u8>)>
    decreases s.len(),
{
    match value_step(s) {
        None => Some((0, seq![])),
        Some((n, out)) => if n == 0 || n > s.len() {
            None
        } else {
            match field_value(s.skip(n as int)) {
                None => None,
                Some((m, rest)) => Some((n + m, out + rest)),
            }
        },
    }
}

/// The field built from a name, the raw value bytes and the unfolded value bytes.
pub open spec fn spec_pair_of(name_raw: Seq<u8>, value_raw: Seq<u8>, value: Seq<u8>) -> FieldPairView {
    FieldPairView {
        name: name_view(trim(spec_decode(name_raw)), Some(name_raw)),
        value: FieldValueView { text: trim(spec_decode(value)), raw: Some(value_raw) },
    }
}

/// One field line: name up to the first colon, the value, a line ending.
pub open spec fn field_pair(s: Seq<u8>) -> Option<(FieldPairView, nat)> {
    match find_byte(s, 0x3A) {
        None => None,
        Some(k) => {
            let rest = s.skip((k + 1) as int);
            match field_value(rest) {
                None => None,
                Some((m, modified)) => {
                    let le = line_ending_len(rest.skip(m as int));
                    if le == 0 || k + 1 + m + le > s.len() {
                        None
                    } else {
                        Some((spec_pair_of(s.take(k as int), rest.take(m as int), modified), k + 1 + m + le))
                    }
                },
            }
        },
    }
}

/// The field lines at the start of `s` and the number of bytes they take.
pub open spec fn field_pairs(s: Seq<u8>) -> (Seq<FieldPairView>, nat)
    decreases s.len(),
{
    match field_pair(s) {
        Some((p, n)) => if 0 < n <= s.len() {
            let (ps, m) = field_pairs(s.skip(n as int));
            (seq![p] + ps, n + m)
        } else {
            (seq![], 0)
        },
        None => (seq![], 0),
    }
}

/// The result of parsing `input` as header fields.
pub open spec fn spec_parse_header(input: Seq<u8>) -> Result<Seq<FieldPairView>, crate::error::ParseErrorView> {
    let (ps, n) = field_pairs(input);
    if n == input.len() {
        Ok(ps)
    } else {
        Err(spec_error_at(input, n as int))
    }
}

fn quoted_len_at(s: &[u8], pos: usize) -> (r: Option<usize>)
    requires
        pos <= s@.len(),
    ensures
        match r {
            Some(n) => quoted_len(s@.skip(pos as int)) == Some(n as nat) && pos + n <= s@.len(),
            None => quoted_len(s@.skip(pos as int)) is None,
        },
{
    let slen = s.len();
    let ghost t = s@.skip(pos as int);
    if pos < s.len() && s[pos] == 0x22 {
        let n = span_class(s, pos + 1, ByteClass::NotBackslashOrQuote);
        assert(t.drop_first() =~= s@.skip(pos + 1));
        if n >= 1 {
            if pos + 1 + n < s.len() && s[pos + 1 + n] == 0x22 {
                Some(n + 2)
            } else {
                None
            }
        } else if slen - pos > 2 && s[pos + 1] == 0x5C && s[pos + 2] == 0x22 {
            if slen - pos > 3 && s[pos + 3] == 0x22 {
                Some(4)
            } else {
                None
            }
        } else {
            None
        }
    } else {
        None
    }
}

fn encoded_word_len_at(s: &[u8], pos: usize) -> (r: Option<usize>)
    requires
        pos <= s@.len(),
    ensures
        match r {
            Some(n) => encoded_word_len(s@.skip(pos as int)) == Some(n as nat) && pos + n <= s@.len(),
            None => encoded_word_len(s@.skip(pos as int)) is None,
        },
{
    let slen = s.len();
    let ghost t = s@.skip(pos as int);
    if pos < s.len() && pos + 1 < s.len() && s[pos] == 0x3D && s[pos + 1] == 0x3F {
        assert(t.skip(2) =~= s@.skip(pos + 2));
        match find_pair_from(s, pos + 2, 0x3F, 0x3D) {
            Some(_) => {
                match find_pair_from(s, pos, 0x3F, 0x3D) {
                    Some(i) => Some(i + 2),
                    None => None,
                }
            },
            None => None,
        }
    } else {
        None
    }
}

fn folded_len_at(s: &[u8], pos: usize) -> (r: Option<usize>)
    requires
        pos <= s@.len(),
    ensures
        match r {
            Some(n) => folded_len(s@.skip(pos as int)) == Some(n as nat) && pos + n <= s@.len(),
            None => folded_len(s@.skip(pos as int)) is None,
        },
{
    let slen = s.len();
    let ghost t = s@.skip(pos as int);
    let le = line_ending_at(s, pos);
    if le > 0 {
        let sp = span_class(s, pos + le, ByteClass::Space);
        assert(t.skip(le as int) =~= s@.skip(pos + le));
        if sp > 0 {
            Some(le + sp)
        } else {
            None
        }
    } else {
        None
    }
}

fn word_space_len_at(s: &[u8], pos: usize) -> (r: Option<usize>)
    requires
        pos <= s@.len(),
    ensures
        match r {
            Some(n) => word_space_len(s@.skip(pos as int)) == Some(n as nat) && pos + n <= s@.len(),
            None => word_space_len(s@.skip(pos as int)) is None,
        },
{
    let slen = s.len();
    let sp = span_class(s, pos, ByteClass::Space);
    if sp > 0 && slen - (pos + sp) > 1 && s[pos + sp] == 0x3D && s[pos + sp + 1] == 0x3F {
        Some(sp)
    } else {
        None
    }
}

fn literal_len_at(s: &[u8], pos: usize) -> (r: Option<usize>)
    requires
        pos <= s@.len(),
    ensures
        match r {
            Some(n) => literal_len(s@.skip(pos as int)) == Some(n as nat) && pos + n <= s@.len(),
            None => literal_len(s@.skip(pos as int)) is None,
        },
{
    let slen = s.len();
    let a = span_class(s, pos, ByteClass::NotQuoteOrNewline);
    match find_pair_from(s, pos, 0x3D, 0x3F) {
        Some(p) => if a >= 1 && a < p {
            Some(a)
        } else {
            Some(p)
        },
        None => if a >= 1 {
            Some(a)
        } else {
            None
        },
    }
}

/// Spec view of an exec step result.
pub open spec fn step_view(r: Option<(usize, Vec<u8>)>) -> Option<(nat, Seq<u8>)> {
    match r {
        Some((n, v)) => Some((n as nat, v@)),
        None => None,
    }
}

fn value_step_at(s: &[u8], pos: usize) -> (r: Option<(usize, Vec<u8>)>)
    requires
        pos <= s@.len(),
    ensures
        step_view(r) == value_step(s@.skip(pos as int)),
        r matches Some((n, _)) ==> pos + n <= s@.len(),
{
    let slen = s.len();
    let ghost t = s@.skip(pos as int);
    match quoted_len_at(s, pos) {
        Some(n) => {
            let out = copy_range(s, pos, pos + n);
            assert(out@ =~= t.take(n as int));
            return Some((n, out));
        },
        None => {},
    }
    match encoded_word_len_at(s, pos) {
        Some(n) => {
            let word = copy_range(s, pos, pos + n);
            assert(word@ =~= t.take(n as int));
            let out = match decode_encoded_word(word.as_slice()) {
                Some(text) => {
                    let mut bytes: Vec<u8> = Vec::new();
                    bytes.extend_from_slice(text.as_str().as_bytes());
                    assert(bytes@ =~= encode_utf8(text@));
                    bytes
                },
                None => word,
            };
            return Some((n, out));
        },
        None => {},
    }
    match folded_len_at(s, pos) {
        Some(n) => {
            let mut out: Vec<u8> = Vec::new();
            out.push(0x20);
            assert(out@ =~= seq![0x20u8]);
            return Some((n, out));
        },
        None => {},
    }
    match word_space_len_at(s, pos) {
        Some(n) => {
            let out: Vec<u8> = Vec::new();
            assert(out@ =~= Seq::<u8>::empty());
            return Some((n, out));
        },
        None => {},
    }
    match literal_len_at(s, pos) {
        Some(n) => {
            let out = copy_range(s, pos, pos + n);
            assert(out@ =~= t.take(n as int));
            Some((n, out))
        },
        None => None,
    }
}

fn field_value_at(s: &[u8], start: usize) -> (r: Option<(usize, Vec<u8>)>)
    requires
        start <= s@.len(),
    ensures
        step_view(r) == field_value(s@.skip(start as int)),
        r matches Some((n, _)) ==> start + n <= s@.len(),
{
    let mut pos = start;
    let mut out: Vec<u8> = Vec::new();
    while pos <= s.len()
        invariant
            start <= pos <= s@.len(),
            field_value(s@.skip(start as int)) == match field_value(s@.skip(pos as int)) {
                None => None,
                Some((m, o)) => Some((((pos - start) + m) as nat, out@ + o)),
            },
        decreases s@.len() - pos,
    {
        let ghost t = s@.skip(pos as int);
        match value_step_at(s, pos) {
            None => {
                assert(field_value(t) == Some((0nat, Seq::<u8>::empty())));
                assert(out@ + Seq::<u8>::empty() =~= out@);
                return Some((pos - start, out));
            },
            Some((n, step_out)) => {
                if n == 0 {
                    return None;
                }
                assert(t.skip(n as int) =~= s@.skip(pos + n));
                let ghost before = out@;
                out.extend_from_slice(step_out.as_slice());
                proof {
                    assert(out@ =~= before + step_out@);
                    match field_value(s@.skip(pos + n)) {
                        None => {},
                        Some((m, o)) => {
                            assert(before + (step_out@ + o) =~= out@ + o);
                        },
                    }
                }
                pos = pos + n;
            },
        }
    }
    None
}


fn field_pair_at(s: &[u8], pos: usize) -> (r: Option<(FieldPair, usize)>)
    requires
        pos <= s@.len(),
    ensures
        match r {
            Some((p, n)) => field_pair(s@.skip(pos as int)) == Some((p@, n as nat)) && pos + n
                <= s@.len(),
            None => field_pair(s@.skip(pos as int)) is None,
        },
{
    let slen = s.len();
    let ghost t = s@.skip(pos as int);
    match find_byte_from(s, pos, 0x3A) {
        None => None,
        Some(k) => {
            let vstart = pos + k + 1;
            assert(t.skip(k + 1) =~= s@.skip(vstart as int));
            match field_value_at(s, vstart) {
                None => None,
                Some((m, modified)) => {
                    let le = line_ending_at(s, vstart + m);
                    assert(t.skip(k + 1).skip(m as int) =~= s@.skip(vstart + m));
                    if le == 0 {
                        return None;
                    }
                    let name_raw = copy_range(s, pos, pos + k);
                    let value_raw = copy_range(s, vstart, vstart + m);
                    assert(name_raw@ =~= t.take(k as int));
                    assert(value_raw@ =~= t.skip(k + 1).take(m as int));
                    let name_text = decode_and_trim_to_string(name_raw.as_slice());
                    let value_text = decode_and_trim_to_string(modified.as_slice());
                    let name = FieldName::new(name_text, Some(name_raw));
                    let value = FieldValue::new(value_text, Some(value_raw));
                    Some((FieldPair::new(name, value), k + 1 + m + le))
                },
            }
        },
    }
}

/// Decode header data into structures.
#[derive(Debug)]
pub struct HeaderParser {}

impl HeaderParser {
    /// Creates a `HeaderParser` with the default configuration.
    pub fn new() -> (r: Self) {
        Self {  }
    }

    /// Decode the given header data.
    ///
    /// Special decoding steps are performed:
    ///
    /// - Whitespace surrounding names and values are removed.
    /// - Folded lines are automatically unfolded.
    /// - Characters in quoted-string encoding are kept.
    /// - Characters in encoded-word (RFC2047) encoding are decoded
    ///   if possible, otherwise unchanged.
    ///
    /// Every byte must belong to a field line; otherwise the error gives the
    /// offset where the field lines stop.
    pub fn parse_header(&self, input: &[u8]) -> (r: Result<HeaderMap, ParseError>)
        ensures
            match r {
                Ok(map) => spec_parse_header(input@) == Ok::<_, crate::error::ParseErrorView>(map@),
                Err(e) => spec_parse_header(input@) == Err::<Seq<FieldPairView>, _>(e@),
            },
    {
        let mut pos: usize = 0;
        let mut pairs: Vec<FieldPair> = Vec::new();
        assert(input@.skip(0) =~= input@);
        while pos < input.len()
            invariant
                0 <= pos <= input@.len(),
                field_pairs(input@) == ({
                    let (ps, m) = field_pairs(input@.skip(pos as int));
                    (pairs@.map_values(|p: FieldPair| p@) + ps, (pos + m) as nat)
                }),
            decreases input@.len() - pos,
        {
            let ghost t = input@.skip(pos as int);
            match field_pair_at(input, pos) {
                None => {
                    proof {
                        assert(field_pairs(t) == (Seq::<FieldPairView>::empty(), 0nat));
                    }
                    return Err(ParseError::at(input, pos));
                },
                Some((pair, n)) => {
                    assert(n > 0) by {
                        crate::scan::lemma_find_byte_props(t, 0x3A);
                    }
                    assert(t.skip(n as int) =~= input@.skip(pos + n));
                    let ghost before = pairs@.map_values(|p: FieldPair| p@);
                    let ghost pv = pair@;
                    pairs.push(pair);
                    proof {
                        assert(pairs@.map_values(|p: FieldPair| p@) =~= before.push(pv));
                        let (ps, m) = field_pairs(input@.skip(pos + n));
                        assert(before + (seq![pv] + ps) =~= before.push(pv) + ps);
                    }
                    pos = pos + n;
                },
            }
        }
        proof {
            let (ps, m) = field_pairs(input@.skip(pos as int));
            if pos == input@.len() {
                let e = input@.skip(pos as int);
                assert(e.len() == 0);
                assert(find_byte(e, 0x3A) is None);
                assert(field_pair(e) is None);
                assert(field_pairs(e) == (Seq::<FieldPairView>::empty(), 0nat));
            }
        }
        if pos == input.len() {
            let map = HeaderMap::from_pairs(pairs);
            proof {
                let (ps, m) = field_pairs(input@.skip(pos as int));
                assert(pairs@.map_values(|p: FieldPair| p@) + ps =~= pairs@.map_values(
                    |p: FieldPair| p@,
                ));
                assert(field_pairs(input@).1 == input@.len());
                assert(map@ =~= field_pairs(input@).0);
            }
            Ok(map)
        } else {
            Err(ParseError::at(input, pos))
        }
    }
}

} // verus!
