//! Grammars of HTTP start lines, quoted-strings, parameters and chunk lines.
use vstd::prelude::*;

use crate::num::{dec_value, hex_value, numeral_value, parse_numeral};
use crate::scan::{
    lemma_span_props, line_ending_at, line_ending_len, span, span_class, ByteClass,
};
use crate::stringesc::{spec_decode, StringLosslessExt};
use crate::scan::copy_range;
use crate::stringutil::{decode_and_trim_to_string, is_text_ws_byte, lower_byte, to_lower_byte, trim};

verus! {

/// Whether `s` starts with `HTTP/` in any letter case.
pub open spec fn starts_with_http(s: Seq<u8>) -> bool {
    s.len() >= 5 && lower_byte(s[0]) == 0x68 && lower_byte(s[1]) == 0x74 && lower_byte(s[2]) == 0x74
        && lower_byte(s[3]) == 0x70 && s[4] == 0x2F
}

/// Length of the run of class `c` bytes at position `i` of `s`.
pub open spec fn span_at(s: Seq<u8>, i: int, c: ByteClass) -> int {
    span(s.skip(i), c) as int
}

/// The HTTP version number after `HTTP/`: `major.minor` or `major`, and its length.
pub open spec fn version_number(s: Seq<u8>) -> Result<((u16, u16), nat), nat> {
    let d1 = span_at(s, 0, ByteClass::Digit);
    if d1 == 0 {
        Err(0)
    } else {
        let v1 = dec_value(s.take(d1));
        let d2 = span_at(s, d1 + 1, ByteClass::Digit);
        let v2 = dec_value(s.subrange(d1 + 1, d1 + 1 + d2));
        if s.len() > d1 && s[d1] == 0x2E && d2 >= 1 && v1 <= 0xFFFF && v2 <= 0xFFFF {
            Ok(((v1 as u16, v2 as u16), (d1 + 1 + d2) as nat))
        } else if v1 <= 0xFFFF {
            Ok(((v1 as u16, 0u16), d1 as nat))
        } else {
            Err(0)
        }
    }
}

/// An HTTP version `HTTP/x.y` and its length; `Err` holds the failure position.
pub open spec fn http_version(s: Seq<u8>) -> Result<((u16, u16), nat), nat> {
    if !starts_with_http(s) {
        Err(0)
    } else {
        match version_number(s.skip(5)) {
            Ok((v, n)) => Ok((v, n + 5)),
            Err(p) => Err(p + 5),
        }
    }
}

/// A request line `method SP target SP version EOL`: the method's length, the
/// target's start and end, and the version; `Err` holds the failure position.
pub open spec fn request_line(s: Seq<u8>) -> Result<(nat, nat, nat, (u16, u16)), nat> {
    let m = span_at(s, 0, ByteClass::Token);
    let sp1 = span_at(s, m, ByteClass::Space);
    let ts = m + sp1;
    let t = span_at(s, ts, ByteClass::NotSpace);
    let te = ts + t;
    let sp2 = span_at(s, te, ByteClass::Space);
    let vs = te + sp2;
    if m == 0 {
        Err(0)
    } else if sp1 == 0 {
        Err(m as nat)
    } else if t == 0 {
        Err(ts as nat)
    } else if sp2 == 0 {
        Err(te as nat)
    } else {
        match http_version(s.skip(vs)) {
            Err(p) => Err((vs + p) as nat),
            Ok((v, n)) => if line_ending_len(s.skip(vs + n)) == 0 {
                Err((vs + n) as nat)
            } else {
                Ok((m as nat, ts as nat, te as nat, v))
            },
        }
    }
}

/// A status line `version SP code SP reason EOL`: the version, the status
/// code, and the reason's start and end; `Err` holds the failure position.
pub open spec fn status_line(s: Seq<u8>) -> Result<((u16, u16), u16, nat, nat), nat> {
    match http_version(s) {
        Err(p) => Err(p),
        Ok((v, n)) => if !(s.len() > n && s[n as int] == 0x20) {
            Err(n)
        } else {
            let cs = (n + 1) as int;
            let c = span_at(s, cs, ByteClass::Digit);
            let code = dec_value(s.subrange(cs, cs + c));
            let rs = cs + c + 1;
            let r = span_at(s, rs, ByteClass::NotControl);
            if c == 0 || code > 0xFFFF {
                Err(cs as nat)
            } else if !(s.len() > cs + c && s[cs + c] == 0x20) {
                Err((cs + c) as nat)
            } else if line_ending_len(s.skip(rs + r)) == 0 {
                Err((rs + r) as nat)
            } else {
                Ok((v, code as u16, rs as nat, (rs + r) as nat))
            }
        },
    }
}

/// The body of a quoted-string: literal runs and backslash-escaped bytes,
/// its length and the unescaped bytes.
pub open spec fn quoted_body(s: Seq<u8>) -> (nat, Seq<u8>)
    decreases s.len(),
{
    if s.len() >= 2 && s[0] == 0x5C && is_text_ws_byte(s[1]) {
        let (n, o) = quoted_body(s.skip(2));
        (n + 2, seq![s[1]] + o)
    } else {
        let k = span_at(s, 0, ByteClass::QuotedText);
        if k >= 1 && k <= s.len() {
            let (n, o) = quoted_body(s.skip(k));
            ((n + k) as nat, s.take(k) + o)
        } else {
            (0, seq![])
        }
    }
}

/// A quoted-string: its length and unescaped content; `Err` holds the failure position.
pub open spec fn quoted_string(s: Seq<u8>) -> Result<(nat, Seq<u8>), nat> {
    if !(s.len() >= 1 && s[0] == 0x22) {
        Err(0)
    } else {
        let (n, o) = quoted_body(s.skip(1));
        if s.len() > 1 + n && s[(1 + n) as int] == 0x22 {
            Ok((n + 2, o))
        } else {
            Err(1 + n)
        }
    }
}

/// A parameter `name = value`: the name's length, the value bytes and the
/// total length; `Err` holds the failure position.
pub open spec fn parameter(s: Seq<u8>) -> Result<(nat, Seq<u8>, nat), nat> {
    let k = span_at(s, 0, ByteClass::Token);
    let sp0 = span_at(s, k, ByteClass::Space);
    let eq = k + sp0;
    let sp1 = span_at(s, eq + 1, ByteClass::Space);
    let vs = eq + 1 + sp1;
    if k == 0 {
        Err(0)
    } else if !(s.len() > eq && s[eq] == 0x3D) {
        Err(eq as nat)
    } else {
        match quoted_string(s.skip(vs)) {
            Ok((n, o)) => Ok((k as nat, o, (vs + n) as nat)),
            Err(_) => {
                let t = span_at(s, vs, ByteClass::Token);
                Ok((k as nat, s.subrange(vs, vs + t), (vs + t) as nat))
            },
        }
    }
}

/// One chunk extension `; name[=value]`: the decoded name and value and the length.
pub open spec fn chunk_ext(s: Seq<u8>) -> Option<((Seq<char>, Seq<char>), nat)> {
    let sp0 = span_at(s, 0, ByteClass::Space);
    let sp1 = span_at(s, sp0 + 1, ByteClass::Space);
    let p = sp0 + 1 + sp1;
    if !(s.len() > sp0 && s[sp0] == 0x3B) {
        None
    } else {
        match parameter(s.skip(p)) {
            Ok((k, v, n)) => Some(
                ((trim(spec_decode(s.subrange(p, p + k))), spec_decode(v)), (p + n) as nat),
            ),
            Err(_) => {
                let t = span_at(s, p, ByteClass::NotSemicolon);
                if t >= 1 {
                    Some(((trim(spec_decode(s.subrange(p, p + t))), seq![]), (p + t) as nat))
                } else {
                    None
                }
            },
        }
    }
}

/// The chunk extensions at the start of `s` and their length.
pub open spec fn chunk_exts(s: Seq<u8>) -> (Seq<(Seq<char>, Seq<char>)>, nat)
    decreases s.len(),
{
    match chunk_ext(s) {
        Some((e, n)) => if 0 < n <= s.len() {
            let (es, m) = chunk_exts(s.skip(n as int));
            (seq![e] + es, n + m)
        } else {
            (seq![], 0)
        },
        None => (seq![], 0),
    }
}

/// A chunk-size line: hexadecimal size, extensions, line ending.
pub open spec fn chunk_line(s: Seq<u8>) -> Option<(u64, Seq<(Seq<char>, Seq<char>)>)> {
    let h = span_at(s, 0, ByteClass::Hex);
    let (es, n) = chunk_exts(s.skip(h));
    if h == 0 || hex_value(s.take(h)) > 0xFFFF_FFFF_FFFF_FFFF {
        None
    } else if line_ending_len(s.skip(h + n)) == 0 {
        None
    } else {
        Some((hex_value(s.take(h)) as u64, es))
    }
}

/// The hexadecimal size at the start of a chunk-size line, ignoring the rest.
pub open spec fn chunk_line_fallback(s: Seq<u8>) -> Option<u64> {
    let h = span_at(s, 0, ByteClass::Hex);
    if h == 0 || hex_value(s.take(h)) > 0xFFFF_FFFF_FFFF_FFFF {
        None
    } else {
        Some(hex_value(s.take(h)) as u64)
    }
}

proof fn lemma_quoted_body_len(s: Seq<u8>)
    ensures
        quoted_body(s).0 <= s.len(),
    decreases s.len(),
{
    assert(s.skip(0) =~= s);
    if s.len() >= 2 && s[0] == 0x5C && is_text_ws_byte(s[1]) {
        lemma_quoted_body_len(s.skip(2));
    } else {
        let k = span_at(s, 0, ByteClass::QuotedText);
        if k >= 1 && k <= s.len() {
            lemma_quoted_body_len(s.skip(k));
        }
    }
}

proof fn lemma_span_at(s: Seq<u8>, pos: int, c: ByteClass)
    requires
        0 <= pos <= s.len(),
    ensures
        pos + span(s.skip(pos), c) <= s.len(),
        forall|j: int| pos <= j < pos + span(s.skip(pos), c) ==> crate::scan::in_class(c, #[trigger] s[j]),
{
    lemma_span_props(s.skip(pos), c);
    assert forall|j: int| pos <= j < pos + span(s.skip(pos), c) implies crate::scan::in_class(
        c,
        #[trigger] s[j],
    ) by {
        assert(s[j] == s.skip(pos)[j - pos]);
    }
}

/// Returns the version after `HTTP/` at `pos`: value and length, or the failure position.
pub fn version_number_at(s: &[u8], pos: usize) -> (r: Result<((u16, u16), usize), usize>)
    requires
        pos <= s@.len(),
    ensures
        match r {
            Ok((v, n)) => version_number(s@.skip(pos as int)) == Ok::<_, nat>((v, n as nat)) && pos
                + n <= s@.len(),
            Err(p) => version_number(s@.skip(pos as int)) == Err::<((u16, u16), nat), _>(p as nat) && pos
                + p <= s@.len(),
        },
{
    let ghost t = s@.skip(pos as int);
    assert(t.skip(0) =~= t);
    let slen = s.len();
    let d1 = span_class(s, pos, ByteClass::Digit);
    if d1 == 0 {
        return Err(0);
    }
    proof {
        lemma_span_at(s@, pos as int, ByteClass::Digit);
        assert(t.take(d1 as int) =~= s@.subrange(pos as int, pos + d1));
    }
    let v1 = parse_numeral(s, pos, pos + d1, 10, 0xFFFF);
    if pos + d1 < slen && s[pos + d1] == 0x2E {
        let d2 = span_class(s, pos + d1 + 1, ByteClass::Digit);
        proof {
            assert(t.skip(d1 + 1) =~= s@.skip(pos + d1 + 1));
            lemma_span_at(s@, pos + d1 + 1, ByteClass::Digit);
            assert(t.subrange(d1 + 1, d1 + 1 + d2) =~= s@.subrange(pos + d1 + 1, pos + d1 + 1 + d2));
        }
        if d2 >= 1 {
            let v2 = parse_numeral(s, pos + d1 + 1, pos + d1 + 1 + d2, 10, 0xFFFF);
            match (v1, v2) {
                (Some(a), Some(b)) => {
                    return Ok(((a as u16, b as u16), d1 + 1 + d2));
                },
                _ => {},
            }
        }
    } else {
        proof {
            let d2 = span(t.skip(d1 + 1), ByteClass::Digit);
            assert(!(t.len() > d1 && t[d1 as int] == 0x2E));
        }
    }
    match v1 {
        Some(a) => Ok(((a as u16, 0u16), d1)),
        None => Err(0),
    }
}

/// Returns the HTTP version at `pos`: value and length, or the failure position.
pub fn http_version_at(s: &[u8], pos: usize) -> (r: Result<((u16, u16), usize), usize>)
    requires
        pos <= s@.len(),
    ensures
        match r {
            Ok((v, n)) => http_version(s@.skip(pos as int)) == Ok::<_, nat>((v, n as nat)) && pos + n
                <= s@.len(),
            Err(p) => http_version(s@.skip(pos as int)) == Err::<((u16, u16), nat), _>(p as nat) && pos
                + p <= s@.len(),
        },
{
    let ghost t = s@.skip(pos as int);
    let slen = s.len();
    if !(slen - pos >= 5 && to_lower_byte(s[pos]) == 0x68 && to_lower_byte(s[pos + 1]) == 0x74
        && to_lower_byte(s[pos + 2]) == 0x74 && to_lower_byte(s[pos + 3]) == 0x70 && s[pos + 4]
        == 0x2F) {
        return Err(0);
    }
    assert(t.skip(5) =~= s@.skip(pos + 5));
    match version_number_at(s, pos + 5) {
        Ok((v, n)) => Ok((v, n + 5)),
        Err(p) => Err(p + 5),
    }
}

/// Returns the parts of the request line at the start of `s`, or the failure position.
pub fn request_line_at(s: &[u8]) -> (r: Result<(usize, usize, usize, (u16, u16)), usize>)
    ensures
        match r {
            Ok((m, ts, te, v)) => request_line(s@) == Ok::<_, nat>((m as nat, ts as nat, te as nat, v))
                && m <= ts <= te <= s@.len(),
            Err(p) => request_line(s@) == Err::<(nat, nat, nat, (u16, u16)), _>(p as nat) && p <= s@.len(),
        },
{
    let slen = s.len();
    assert(s@.skip(0) =~= s@);
    let m = span_class(s, 0, ByteClass::Token);
    let sp1 = span_class(s, m, ByteClass::Space);
    let ts = m + sp1;
    let t = span_class(s, ts, ByteClass::NotSpace);
    let te = ts + t;
    let sp2 = span_class(s, te, ByteClass::Space);
    let vs = te + sp2;
    if m == 0 {
        return Err(0);
    } else if sp1 == 0 {
        return Err(m);
    } else if t == 0 {
        return Err(ts);
    } else if sp2 == 0 {
        return Err(te);
    }
    match http_version_at(s, vs) {
        Err(p) => Err(vs + p),
        Ok((v, n)) => {
            if line_ending_at(s, vs + n) == 0 {
                Err(vs + n)
            } else {
                Ok((m, ts, te, v))
            }
        },
    }
}

/// Returns the parts of the status line at the start of `s`, or the failure position.
pub fn status_line_at(s: &[u8]) -> (r: Result<((u16, u16), u16, usize, usize), usize>)
    ensures
        match r {
            Ok((v, c, rs, re)) => status_line(s@) == Ok::<_, nat>((v, c, rs as nat, re as nat)) && rs
                <= re <= s@.len(),
            Err(p) => status_line(s@) == Err::<((u16, u16), u16, nat, nat), _>(p as nat) && p <= s@.len(),
        },
{
    let slen = s.len();
    assert(s@.skip(0) =~= s@);
    match http_version_at(s, 0) {
        Err(p) => Err(p),
        Ok((v, n)) => {
            if !(n < slen && s[n] == 0x20) {
                return Err(n);
            }
            let cs = n + 1;
            let c = span_class(s, cs, ByteClass::Digit);
            proof {
                lemma_span_at(s@, cs as int, ByteClass::Digit);
            }
            let code = parse_numeral(s, cs, cs + c, 10, 0xFFFF);
            if c == 0 {
                return Err(cs);
            }
            let code = match code {
                Some(code) => code,
                None => {
                    return Err(cs);
                },
            };
            if !(cs + c < slen && s[cs + c] == 0x20) {
                return Err(cs + c);
            }
            let rs = cs + c + 1;
            let r = span_class(s, rs, ByteClass::NotControl);
            if line_ending_at(s, rs + r) == 0 {
                return Err(rs + r);
            }
            Ok((v, code as u16, rs, rs + r))
        },
    }
}

/// Returns the quoted-string body at `pos`: its length and unescaped bytes.
pub fn quoted_body_at(s: &[u8], pos: usize) -> (r: (usize, Vec<u8>))
    requires
        pos <= s@.len(),
    ensures
        quoted_body(s@.skip(pos as int)) == (r.0 as nat, r.1@),
        pos + r.0 <= s@.len(),
{
    let slen = s.len();
    let mut i = pos;
    let mut out: Vec<u8> = Vec::new();
    proof {
        lemma_quoted_body_len(s@.skip(pos as int));
        assert(out@ + quoted_body(s@.skip(pos as int)).1 =~= quoted_body(s@.skip(pos as int)).1);
    }
    while i <= slen
        invariant
            pos <= i <= s@.len(),
            slen == s@.len(),
            quoted_body(s@.skip(pos as int)) == ({
                let (n, o) = quoted_body(s@.skip(i as int));
                ((i - pos + n) as nat, out@ + o)
            }),
            i + quoted_body(s@.skip(i as int)).0 <= s@.len(),
        decreases s@.len() - i,
    {
        let ghost t = s@.skip(i as int);
        assert(t.skip(0) =~= t);
        if slen - i >= 2 && s[i] == 0x5C && crate::stringutil::is_text_ws(s[i + 1]) {
            assert(t.skip(2) =~= s@.skip(i + 2));
            let ghost before = out@;
            out.push(s[i + 1]);
            proof {
                let (n, o) = quoted_body(s@.skip(i + 2));
                assert(before + (seq![t[1]] + o) =~= out@ + o);
            }
            i = i + 2;
        } else {
            let k = span_class(s, i, ByteClass::QuotedText);
            proof {
                lemma_quoted_body_len(s@.skip(i + k));
                lemma_quoted_body_len(s@.skip(i + 2));
            }
            if k >= 1 {
                assert(t.skip(k as int) =~= s@.skip(i + k));
                let ghost before = out@;
                out.extend_from_slice(&s[i..i + k]);
                proof {
                    let (n, o) = quoted_body(s@.skip(i + k));
                    assert(before + (t.take(k as int) + o) =~= out@ + o);
                }
                i = i + k;
            } else {
                proof {
                    assert(quoted_body(t) == (0nat, Seq::<u8>::empty()));
                    assert(out@ + Seq::<u8>::empty() =~= out@);
                }
                return (i - pos, out);
            }
        }
    }
    (0, out)
}

/// Returns the quoted-string at `pos`: length and unescaped bytes, or the failure position.
pub fn quoted_string_at(s: &[u8], pos: usize) -> (r: Result<(usize, Vec<u8>), usize>)
    requires
        pos <= s@.len(),
    ensures
        match r {
            Ok((n, o)) => quoted_string(s@.skip(pos as int)) == Ok::<_, nat>((n as nat, o@)) && pos
                + n <= s@.len(),
            Err(p) => quoted_string(s@.skip(pos as int)) == Err::<(nat, Seq<u8>), _>(p as nat) && pos + p
                <= s@.len(),
        },
{
    let ghost t = s@.skip(pos as int);
    let slen = s.len();
    if !(pos < slen && s[pos] == 0x22) {
        return Err(0);
    }
    assert(t.skip(1) =~= s@.skip(pos + 1));
    let (n, o) = quoted_body_at(s, pos + 1);
    if pos + 1 + n < slen && s[pos + 1 + n] == 0x22 {
        Ok((n + 2, o))
    } else {
        Err(1 + n)
    }
}

/// Returns the parameter at `pos`: name length, value bytes and total length,
/// or the failure position.
pub fn parameter_at(s: &[u8], pos: usize) -> (r: Result<(usize, Vec<u8>, usize), usize>)
    requires
        pos <= s@.len(),
    ensures
        match r {
            Ok((k, v, n)) => parameter(s@.skip(pos as int)) == Ok::<_, nat>((k as nat, v@, n as nat))
                && pos + k <= pos + n <= s@.len(),
            Err(p) => parameter(s@.skip(pos as int)) == Err::<(nat, Seq<u8>, nat), _>(p as nat) && pos + p
                <= s@.len(),
        },
{
    let ghost t = s@.skip(pos as int);
    assert(t.skip(0) =~= t);
    let slen = s.len();
    let k = span_class(s, pos, ByteClass::Token);
    assert(t.skip(k as int) =~= s@.skip(pos + k));
    let sp0 = span_class(s, pos + k, ByteClass::Space);
    let eq = k + sp0;
    if k == 0 {
        return Err(0);
    }
    if !(pos + eq < slen && s[pos + eq] == 0x3D) {
        return Err(eq);
    }
    assert(t.skip(eq + 1) =~= s@.skip(pos + eq + 1));
    let sp1 = span_class(s, pos + eq + 1, ByteClass::Space);
    let vs = eq + 1 + sp1;
    assert(t.skip(vs as int) =~= s@.skip(pos + vs));
    match quoted_string_at(s, pos + vs) {
        Ok((n, o)) => Ok((k, o, vs + n)),
        Err(_) => {
            let tl = span_class(s, pos + vs, ByteClass::Token);
            let value = crate::scan::copy_range(s, pos + vs, pos + vs + tl);
            assert(value@ =~= t.subrange(vs as int, vs + tl));
            Ok((k, value, vs + tl))
        },
    }
}

/// Returns the chunk extension at `pos`: its decoded name and value and its
/// length, or `None` where none stands there.
pub fn chunk_ext_at(s: &[u8], pos: usize) -> (r: Option<((String, String), usize)>)
    requires
        pos <= s@.len(),
    ensures
        match r {
            Some(((k, v), n)) => chunk_ext(s@.skip(pos as int)) == Some(((k@, v@), n as nat)) && pos
                + n <= s@.len(),
            None => chunk_ext(s@.skip(pos as int)) is None,
        },
{
    let ghost t = s@.skip(pos as int);
    assert(t.skip(0) =~= t);
    let slen = s.len();
    let sp0 = span_class(s, pos, ByteClass::Space);
    if !(pos + sp0 < slen && s[pos + sp0] == 0x3B) {
        return None;
    }
    assert(t.skip(sp0 + 1) =~= s@.skip(pos + sp0 + 1));
    let sp1 = span_class(s, pos + sp0 + 1, ByteClass::Space);
    let p = sp0 + 1 + sp1;
    assert(t.skip(p as int) =~= s@.skip(pos + p));
    match parameter_at(s, pos + p) {
        Ok((k, v, n)) => {
            let raw = crate::scan::copy_range(s, pos + p, pos + p + k);
            assert(raw@ =~= t.subrange(p as int, p + k));
            let name = decode_and_trim_to_string(raw.as_slice());
            let value = <String as StringLosslessExt>::from_utf8_lossless(v.as_slice());
            Some(((name, value), p + n))
        },
        Err(_) => {
            let tl = span_class(s, pos + p, ByteClass::NotSemicolon);
            if tl >= 1 {
                let raw = crate::scan::copy_range(s, pos + p, pos + p + tl);
                assert(raw@ =~= t.subrange(p as int, p + tl));
                let name = decode_and_trim_to_string(raw.as_slice());
                let value = String::new();
                assert(value@ =~= Seq::<char>::empty());
                Some(((name, value), p + tl))
            } else {
                None
            }
        },
    }
}

/// Returns the chunk extensions at `pos` and their length.
pub fn chunk_exts_at(s: &[u8], pos: usize) -> (r: (Vec<(String, String)>, usize))
    requires
        pos <= s@.len(),
    ensures
        chunk_exts(s@.skip(pos as int)).0 == r.0@.map_values(|e: (String, String)| (e.0@, e.1@)),
        chunk_exts(s@.skip(pos as int)).1 == r.1 as nat,
        pos + r.1 <= s@.len(),
{
    let slen = s.len();
    let mut exts: Vec<(String, String)> = Vec::new();
    let mut i = pos;
    let ghost total = chunk_exts(s@.skip(pos as int));
    assert(exts@.map_values(|e: (String, String)| (e.0@, e.1@)) + total.0 =~= total.0);
    loop
        invariant
            pos <= i <= s@.len(),
            slen == s@.len(),
            total == chunk_exts(s@.skip(pos as int)),
            total.0 == exts@.map_values(|e: (String, String)| (e.0@, e.1@)) + chunk_exts(
                s@.skip(i as int),
            ).0,
            total.1 == (i - pos) + chunk_exts(s@.skip(i as int)).1,
        decreases s@.len() - i,
    {
        let ghost t = s@.skip(i as int);
        match chunk_ext_at(s, i) {
            Some((e, n)) => {
                if n == 0 {
                    proof {
                        assert(chunk_exts(t).0 =~= Seq::<(Seq<char>, Seq<char>)>::empty());
                    }
                    assert(total.0 =~= exts@.map_values(|e: (String, String)| (e.0@, e.1@)));
                    return (exts, i - pos);
                }
                let ghost before = exts@.map_values(|e: (String, String)| (e.0@, e.1@));
                let ghost ev = (e.0@, e.1@);
                assert(t.skip(n as int) =~= s@.skip(i + n));
                exts.push(e);
                proof {
                    assert(exts@.map_values(|e: (String, String)| (e.0@, e.1@)) =~= before.push(ev));
                    let (es, m) = chunk_exts(s@.skip(i + n));
                    assert(before + (seq![ev] + es) =~= before.push(ev) + es);
                }
                i = i + n;
            },
            None => {
                assert(total.0 =~= exts@.map_values(|e: (String, String)| (e.0@, e.1@)));
                return (exts, i - pos);
            },
        }
    }
}

/// Parses a chunk-size line: the size and the extensions.
pub fn parse_chunk_line(s: &[u8]) -> (r: Option<(u64, Vec<(String, String)>)>)
    ensures
        match r {
            Some((size, exts)) => chunk_line(s@) == Some(
                (size, exts@.map_values(|e: (String, String)| (e.0@, e.1@))),
            ),
            None => chunk_line(s@) is None,
        },
{
    let slen = s.len();
    assert(s@.skip(0) =~= s@);
    let h = span_class(s, 0, ByteClass::Hex);
    proof {
        lemma_span_at(s@, 0, ByteClass::Hex);
        assert(s@.take(h as int) =~= s@.subrange(0, h as int));
    }
    if h == 0 {
        return None;
    }
    let size = match parse_numeral(s, 0, h, 16, 0xFFFF_FFFF_FFFF_FFFF) {
        Some(v) => v,
        None => {
            return None;
        },
    };
    let (exts, n) = chunk_exts_at(s, h);
    if line_ending_at(s, h + n) == 0 {
        return None;
    }
    Some((size, exts))
}

/// Parses only the hexadecimal size at the start of a chunk-size line.
pub fn parse_chunk_line_fallback(s: &[u8]) -> (r: Option<u64>)
    ensures
        r == chunk_line_fallback(s@),
{
    assert(s@.skip(0) =~= s@);
    let h = span_class(s, 0, ByteClass::Hex);
    proof {
        lemma_span_at(s@, 0, ByteClass::Hex);
        assert(s@.take(h as int) =~= s@.subrange(0, h as int));
    }
    if h == 0 {
        return None;
    }
    parse_numeral(s, 0, h, 16, 0xFFFF_FFFF_FFFF_FFFF)
}


/// A request line: method, request target and HTTP version.
#[derive(Debug)]
pub struct RequestLine {
    pub method: Vec<u8>,
    pub request_target: Vec<u8>,
    pub http_version: (u16, u16),
}

/// A status line: HTTP version, status code and reason phrase.
#[derive(Debug)]
pub struct StatusLine {
    pub http_version: (u16, u16),
    pub status_code: u16,
    pub reason_phrase: Vec<u8>,
}

/// Parses the request line at the start of `input`, up to its line ending.
///
/// `Err` holds the offset at which the input stops matching the grammar.
pub fn parse_request_line(input: &[u8]) -> (r: Result<RequestLine, usize>)
    ensures
        match request_line(input@) {
            Ok((m, ts, te, v)) => r matches Ok(line) && line.method@ == input@.take(m as int)
                && line.request_target@ == input@.subrange(ts as int, te as int)
                && line.http_version == v,
            Err(p) => r matches Err(q) && q == p && p <= input@.len(),
        },
{
    match request_line_at(input) {
        Ok((m, ts, te, v)) => {
            let method = copy_range(input, 0, m);
            let request_target = copy_range(input, ts, te);
            assert(method@ =~= input@.take(m as int));
            Ok(RequestLine { method, request_target, http_version: v })
        },
        Err(p) => Err(p),
    }
}

/// Parses the status line at the start of `input`, up to its line ending.
///
/// `Err` holds the offset at which the input stops matching the grammar.
pub fn parse_status_line(input: &[u8]) -> (r: Result<StatusLine, usize>)
    ensures
        match status_line(input@) {
            Ok((v, c, rs, re)) => r matches Ok(line) && line.http_version == v
                && line.status_code == c && line.reason_phrase@ == input@.subrange(
                rs as int,
                re as int,
            ),
            Err(p) => r matches Err(q) && q == p && p <= input@.len(),
        },
{
    match status_line_at(input) {
        Ok((v, c, rs, re)) => {
            let reason_phrase = copy_range(input, rs, re);
            Ok(StatusLine { http_version: v, status_code: c, reason_phrase })
        },
        Err(p) => Err(p),
    }
}

/// Parses a quoted-string at the start of `input` and decodes its unescaped
/// content with the lossless scheme; bytes after the closing quote are ignored.
///
/// `Err` holds the offset at which the input stops matching the grammar.
pub fn parse_quoted_string(input: &[u8]) -> (r: Result<String, usize>)
    ensures
        match quoted_string(input@) {
            Ok((n, o)) => r matches Ok(s) && s@ == spec_decode(o),
            Err(p) => r matches Err(q) && q == p && p <= input@.len(),
        },
{
    assert(input@.skip(0) =~= input@);
    match quoted_string_at(input, 0) {
        Ok((n, o)) => Ok(<String as StringLosslessExt>::from_utf8_lossless(o.as_slice())),
        Err(p) => Err(p),
    }
}

/// Parses a parameter `name = value` at the start of `input`: the name is
/// decoded and trimmed, the value (a token or a quoted-string) decoded.
///
/// `Err` holds the offset at which the input stops matching the grammar.
pub fn parse_parameter(input: &[u8]) -> (r: Result<(String, String), usize>)
    ensures
        match parameter(input@) {
            Ok((k, v, n)) => r matches Ok((name, value)) && name@ == trim(
                spec_decode(input@.take(k as int)),
            ) && value@ == spec_decode(v),
            Err(p) => r matches Err(q) && q == p && p <= input@.len(),
        },
{
    assert(input@.skip(0) =~= input@);
    match parameter_at(input, 0) {
        Ok((k, v, n)) => {
            let raw = copy_range(input, 0, k);
            assert(raw@ =~= input@.take(k as int));
            let name = decode_and_trim_to_string(raw.as_slice());
            let value = <String as StringLosslessExt>::from_utf8_lossless(v.as_slice());
            Ok((name, value))
        },
        Err(p) => Err(p),
    }
}

} // verus!
