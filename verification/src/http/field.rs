//! Header field values parsers.
use vstd::prelude::*;
use vstd::utf8::encode_utf8;

use super::pc::{self, parameter, quoted_string, quoted_string_at, span_at};
use crate::error::{spec_error_at, ParseError};
use crate::header::{spec_get_all, FieldValue, FieldValueView, HeaderMap};
use crate::scan::{copy_range, span_class, ByteClass};
use crate::stringesc::{spec_decode, StringLosslessExt};
use crate::stringutil::{
    decode_and_trim_to_string, lower_chars, str_to_chars, to_ascii_lowercase, trim,
};

verus! {

/// Parse a field value formatted as a "parameter".
///
/// Example input: `name=value` or `name="value inside quoted-string"`.
/// The name is decoded and trimmed, the value decoded, both with the
/// lossless scheme. Bytes after the parameter are ignored.
pub fn parse_parameter(input: &[u8]) -> (r: Result<(String, String), ParseError>)
    ensures
        match parameter(input@) {
            Ok((k, v, n)) => r matches Ok((name, value)) && name@ == trim(
                spec_decode(input@.take(k as int)),
            ) && value@ == spec_decode(v),
            Err(p) => r matches Err(e) && e@ == spec_error_at(input@, p as int),
        },
{
    match pc::parse_parameter(input) {
        Ok(pair) => Ok(pair),
        Err(p) => Err(ParseError::at(input, p)),
    }
}

/// Parse a field value formatted as a "quoted-string".
///
/// Example input: `"Hello world!"`. The unescaped content is decoded with
/// the lossless scheme. Bytes after the closing quote are ignored.
pub fn parse_quoted_string(input: &[u8]) -> (r: Result<String, ParseError>)
    ensures
        match quoted_string(input@) {
            Ok((n, o)) => r matches Ok(s) && s@ == spec_decode(o),
            Err(p) => r matches Err(e) && e@ == spec_error_at(input@, p as int),
        },
{
    match pc::parse_quoted_string(input) {
        Ok(text) => Ok(text),
        Err(p) => Err(ParseError::at(input, p)),
    }
}

/// One element of a comma separated list at the start of `s`: its value
/// (`None` for an empty element) and its length up to the separating comma
/// or the end; `Err` holds the offset where it is malformed.
///
/// An element is either a quoted-string, surrounded by optional whitespace,
/// or the bytes up to the next comma, decoded and trimmed.
pub open spec fn list_element(s: Seq<u8>) -> Result<(Option<Seq<char>>, nat), nat> {
    let w = span_at(s, 0, ByteClass::Space);
    if s.len() > w && s[w] == 0x22 {
        match quoted_string(s.skip(w)) {
            Err(p) => Err((w + p) as nat),
            Ok((n, o)) => {
                let e = w + n;
                let w2 = span_at(s, e, ByteClass::Space);
                if s.len() > e + w2 && s[e + w2] != 0x2C {
                    Err((e + w2) as nat)
                } else {
                    Ok((Some(spec_decode(o)), (e + w2) as nat))
                }
            },
        }
    } else {
        let t = span_at(s, 0, ByteClass::NotComma);
        let v = trim(spec_decode(s.take(t)));
        Ok(
            (
                if v.len() == 0 {
                    None
                } else {
                    Some(v)
                },
                t as nat,
            ),
        )
    }
}

/// The values of a comma separated list, empty elements left out; `Err`
/// holds the offset where the list is malformed.
pub open spec fn comma_list(s: Seq<u8>) -> Result<Seq<Seq<char>>, nat>
    decreases s.len(),
{
    match list_element(s) {
        Err(p) => Err(p),
        Ok((v, n)) => {
            let head = match v {
                Some(x) => seq![x],
                None => seq![],
            };
            if n >= s.len() {
                Ok(head)
            } else {
                match comma_list(s.skip((n + 1) as int)) {
                    Ok(rest) => Ok(head + rest),
                    Err(p) => Err(n + 1 + p),
                }
            }
        },
    }
}

proof fn lemma_span_at_bound(s: Seq<u8>, pos: int, c: ByteClass)
    requires
        0 <= pos <= s.len(),
    ensures
        pos + span_at(s, pos, c) <= s.len(),
        pos + span_at(s, pos, c) < s.len() ==> !crate::scan::in_class(c, s[pos + span_at(s, pos, c)]),
{
    crate::scan::lemma_span_props(s.skip(pos), c);
    if pos + span_at(s, pos, c) < s.len() {
        assert(s[pos + span_at(s, pos, c)] == s.skip(pos)[span_at(s, pos, c)]);
    }
}

fn list_element_at(s: &[u8], pos: usize) -> (r: Result<(Option<String>, usize), usize>)
    requires
        pos <= s@.len(),
    ensures
        match r {
            Ok((v, n)) => {
                &&& pos + n <= s@.len()
                &&& pos + n < s@.len() ==> s@[pos + n] == 0x2C
                &&& list_element(s@.skip(pos as int)) == Ok::<_, nat>(
                    (
                        match v {
                            Some(x) => Some(x@),
                            None => None,
                        },
                        n as nat,
                    ),
                )
            },
            Err(p) => list_element(s@.skip(pos as int)) == Err::<(Option<Seq<char>>, nat), _>(
                p as nat,
            ) && pos + p <= s@.len(),
        },
{
    let ghost t = s@.skip(pos as int);
    assert(t.skip(0) =~= t);
    let slen = s.len();
    let w = span_class(s, pos, ByteClass::Space);
    if pos + w < slen && s[pos + w] == 0x22 {
        assert(t.skip(w as int) =~= s@.skip(pos + w));
        match quoted_string_at(s, pos + w) {
            Err(p) => Err(w + p),
            Ok((n, o)) => {
                let e = w + n;
                assert(t.skip(e as int) =~= s@.skip(pos + e));
                let w2 = span_class(s, pos + e, ByteClass::Space);
                if pos + e + w2 < slen && s[pos + e + w2] != 0x2C {
                    Err(e + w2)
                } else {
                    let v = <String as StringLosslessExt>::from_utf8_lossless(o.as_slice());
                    Ok((Some(v), e + w2))
                }
            },
        }
    } else {
        let tl = span_class(s, pos, ByteClass::NotComma);
        proof {
            lemma_span_at_bound(s@, pos as int, ByteClass::NotComma);
            assert(span_at(s@, pos as int, ByteClass::NotComma) == tl);
        }
        let raw = copy_range(s, pos, pos + tl);
        assert(raw@ =~= t.take(tl as int));
        let v = decode_and_trim_to_string(raw.as_slice());
        let chars = str_to_chars(v.as_str());
        if chars.len() == 0 {
            Ok((None, tl))
        } else {
            Ok((Some(v), tl))
        }
    }
}

/// Parse a field value formatted as a comma separated list.
///
/// Example input: `abc, "Hello world!"`. Elements are separated by commas;
/// a quoted-string element gives its unescaped content, any other element
/// its text with surrounding whitespace removed. Empty elements are left out.
pub fn parse_comma_list(input: &[u8]) -> (r: Result<Vec<String>, ParseError>)
    ensures
        match comma_list(input@) {
            Ok(l) => r matches Ok(v) && v@.map_values(|x: String| x@) == l,
            Err(p) => r matches Err(e) && e@ == spec_error_at(input@, p as int),
        },
{
    let slen = input.len();
    let mut out: Vec<String> = Vec::new();
    let mut pos: usize = 0;
    let ghost total = comma_list(input@);
    assert(input@.skip(0) =~= input@);
    loop
        invariant
            pos <= input@.len(),
            slen == input@.len(),
            total == comma_list(input@),
            total == match comma_list(input@.skip(pos as int)) {
                Ok(rest) => Ok(out@.map_values(|x: String| x@) + rest),
                Err(p) => Err::<Seq<Seq<char>>, nat>((pos + p) as nat),
            },
        decreases input@.len() - pos,
    {
        let ghost t = input@.skip(pos as int);
        let ghost before = out@.map_values(|x: String| x@);
        match list_element_at(input, pos) {
            Err(p) => {
                return Err(ParseError::at(input, pos + p));
            },
            Ok((v, n)) => {
                match v {
                    Some(x) => {
                        let ghost xv = x@;
                        out.push(x);
                        assert(out@.map_values(|x: String| x@) =~= before + seq![xv]);
                    },
                    None => {
                        assert(out@.map_values(|x: String| x@) =~= before + Seq::<Seq<char>>::empty());
                    },
                }
                if pos + n >= slen {
                    proof {
                        assert(before + (out@.map_values(|x: String| x@).skip(before.len() as int))
                            =~= out@.map_values(|x: String| x@));
                    }
                    return Ok(out);
                }
                assert(t.skip(n + 1) =~= input@.skip(pos + n + 1));
                proof {
                    let head = match list_element(t) {
                        Ok((Some(x), _)) => seq![x],
                        _ => Seq::<Seq<char>>::empty(),
                    };
                    assert(out@.map_values(|x: String| x@) =~= before + head);
                    match comma_list(input@.skip(pos + n + 1)) {
                        Ok(rest) => {
                            assert(comma_list(t) == Ok::<_, nat>(head + rest));
                            assert(before + (head + rest) =~= out@.map_values(|x: String| x@)
                                + rest);
                        },
                        Err(p) => {
                            assert(comma_list(t) == Err::<Seq<Seq<char>>, _>((n + 1 + p) as nat));
                        },
                    }
                }
                pos = pos + n + 1;
            },
        }
    }
}

/// The list values of one field value, none when it is not a valid list.
pub open spec fn value_list(v: FieldValueView) -> Seq<Seq<char>> {
    match comma_list(encode_utf8(v.text)) {
        Ok(l) => l,
        Err(_) => seq![],
    }
}

/// The list values of field values, in order.
pub open spec fn values_lists(vals: Seq<FieldValueView>) -> Seq<Seq<char>>
    decreases vals.len(),
{
    if vals.len() == 0 {
        seq![]
    } else {
        values_lists(vals.drop_last()) + value_list(vals.last())
    }
}

/// The lower-cased list values of all fields with the lookup key `key`.
pub open spec fn spec_get_comma_list(pairs: Seq<crate::header::FieldPairView>, key: Seq<char>) -> Seq<
    Seq<char>,
> {
    values_lists(spec_get_all(pairs, key)).map_values(|x: Seq<char>| lower_chars(x))
}

/// Extension trait for header map for HTTP values.
pub trait HeaderMapExt {
    /// The lower-cased list values of all fields named `name`.
    spec fn spec_comma_list(&self, name: Seq<char>) -> Seq<Seq<char>>;

    /// Returns values formatted as comma separated list or duplicate names.
    ///
    /// The values are lower-cased (ASCII); a field value that is not a valid
    /// list contributes nothing.
    fn get_comma_list(&self, name: &str) -> (r: Vec<String>)
        ensures
            r@.map_values(|x: String| x@) == self.spec_comma_list(name@),
    ;
}

impl HeaderMapExt for HeaderMap {
    open spec fn spec_comma_list(&self, name: Seq<char>) -> Seq<Seq<char>> {
        spec_get_comma_list(self@, lower_chars(name))
    }

    fn get_comma_list(&self, name: &str) -> (r: Vec<String>) {
        let values = self.all_values(name);
        let ghost vals = values@.map_values(|v: &FieldValue| v@);
        let mut list: Vec<String> = Vec::new();
        let mut i: usize = 0;
        assert(vals.take(0) =~= Seq::<FieldValueView>::empty());
        while i < values.len()
            invariant
                0 <= i <= values@.len(),
                vals == values@.map_values(|v: &FieldValue| v@),
                list@.map_values(|x: String| x@) == values_lists(vals.take(i as int)).map_values(
                    |x: Seq<char>| lower_chars(x),
                ),
            decreases values@.len() - i,
        {
            let value = values[i];
            let bytes = value.text.as_str().as_bytes();
            let ghost before = list@.map_values(|x: String| x@);
            let parsed = parse_comma_list(bytes);
            proof {
                assert(vals.take(i + 1).drop_last() =~= vals.take(i as int));
                assert(vals.take(i + 1).last() == value@);
            }
            match parsed {
                Ok(items) => {
                    let mut j: usize = 0;
                    while j < items.len()
                        invariant
                            0 <= j <= items@.len(),
                            list@.map_values(|x: String| x@) == before + items@.take(
                                j as int,
                            ).map_values(|x: String| lower_chars(x@)),
                        decreases items@.len() - j,
                    {
                        let lowered = to_ascii_lowercase(items[j].as_str());
                        let ghost b2 = list@.map_values(|x: String| x@);
                        list.push(lowered);
                        assert(list@.map_values(|x: String| x@) =~= b2.push(lowered@));
                        assert(items@.take(j + 1).map_values(|x: String| lower_chars(x@))
                            =~= items@.take(j as int).map_values(|x: String| lower_chars(x@)).push(
                            lower_chars(items@[j as int]@),
                        ));
                        j = j + 1;
                    }
                    proof {
                        assert(items@.take(j as int) =~= items@);
                        assert(items@.map_values(|x: String| lower_chars(x@)) =~= items@.map_values(
                            |x: String| x@,
                        ).map_values(|x: Seq<char>| lower_chars(x)));
                        assert(values_lists(vals.take(i + 1)).map_values(|x: Seq<char>| lower_chars(x))
                            =~= before + value_list(value@).map_values(|x: Seq<char>| lower_chars(x)));
                    }
                },
                Err(_) => {
                    assert(values_lists(vals.take(i + 1)).map_values(|x: Seq<char>| lower_chars(x))
                        =~= before);
                },
            }
            i = i + 1;
        }
        assert(vals.take(i as int) =~= vals);
        list
    }
}

} // verus!
