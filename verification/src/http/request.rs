//! HTTP request start line and header.
use vstd::prelude::*;
use vstd::utf8::{encode_utf8, encode_utf8_decode_utf8, encode_utf8_valid_utf8};

use super::pc::{http_version, request_line, request_line_at, span_at, starts_with_http, version_number};
use super::util::cut_start_line;
use super::{is_start_line_error_at, ErrorSource, HTTPError, Version, DEFAULT_VERSION};
use crate::error::ParseError;
use crate::header::{
    all_token, field_read_back, field_readable, law_formatted_fields_parse_back, line_len, name_lossy_char, spec_formatted, spec_pair_ok, spec_parse_header,
    spec_partial_line, token_text_lossy, FieldPairView, FormatError, HeaderFormatter, HeaderMap,
    HeaderParser,
};
use crate::num::{ascii_chars, dec_digits, dec_value, lemma_dec_digits, push_ascii, push_decimal};
use crate::scan::{in_class, lemma_find_byte, lemma_span, line_ending_len, ByteClass};
use crate::stringesc::{escape_valid, spec_decode, StringLosslessExt};
use crate::stringutil::{is_digit_byte, is_space_byte, is_token_byte, lower_byte, string_push, string_push_str};
use crate::weburl::{default_port, UrlParts, UrlPartsView};

verus! {

/// Abstract contents of a [RequestLine].
pub struct RequestLineView {
    /// Method name.
    pub method: Seq<char>,
    /// The request-target.
    pub target: Seq<char>,
    /// HTTP version.
    pub version: (u16, u16),
}

/// Represents a start line for a request.
#[derive(Debug)]
pub struct RequestLine {
    /// Method name such as "GET" or "POST".
    pub method: String,
    /// The request-target.
    pub target: String,
    /// HTTP version.
    pub version: Version,
}

impl View for RequestLine {
    type V = RequestLineView;

    open spec fn view(&self) -> RequestLineView {
        RequestLineView { method: self.method@, target: self.target@, version: self.version }
    }
}

/// The request line read from `input`, or the offset where it is malformed.
pub open spec fn spec_parse_request_line(input: Seq<u8>) -> Result<RequestLineView, nat> {
    match request_line(input) {
        Ok((m, ts, te, v)) => Ok(
            RequestLineView {
                method: spec_decode(input.take(m as int)),
                target: spec_decode(input.subrange(ts as int, te as int)),
                version: v,
            },
        ),
        Err(p) => Err(p),
    }
}

/// Whether every byte of the method is a token character.
pub open spec fn method_ok(l: RequestLineView) -> bool {
    forall|i: int|
        0 <= i < encode_utf8(l.method).len() ==> is_token_byte(#[trigger] encode_utf8(l.method)[i])
}

/// `HTTP/` followed by the version numbers, as bytes.
pub open spec fn spec_version_bytes(v: (u16, u16)) -> Seq<u8> {
    seq![0x48u8, 0x54u8, 0x54u8, 0x50u8, 0x2Fu8] + dec_digits(v.0 as nat) + seq![0x2Eu8]
        + dec_digits(v.1 as nat)
}

/// The version bytes hold no LF.
pub proof fn lemma_version_no_lf(v: (u16, u16))
    ensures
        forall|j: int|
            0 <= j < spec_version_bytes(v).len() ==> #[trigger] spec_version_bytes(v)[j] != 0x0Au8,
{
    lemma_dec_digits(v.0 as nat);
    lemma_dec_digits(v.1 as nat);
    let a = dec_digits(v.0 as nat);
    let b = dec_digits(v.1 as nat);
    let s = spec_version_bytes(v);
    assert forall|j: int| 0 <= j < s.len() implies #[trigger] s[j] != 0x0Au8 by {
        if j < 5 {
        } else if j < 5 + a.len() {
            assert(s[j] == a[j - 5]);
        } else if j == 5 + a.len() {
        } else {
            assert(s[j] == b[j - 6 - a.len()]);
        }
    }
}

/// The bytes of a request line without its line ending: method, SP,
/// target, SP, version.
pub open spec fn spec_request_line_bytes(l: RequestLineView) -> Seq<u8> {
    encode_utf8(l.method) + seq![0x20u8] + encode_utf8(l.target) + seq![0x20u8]
        + spec_version_bytes(l.version)
}

/// A run of `k` bytes of class `c` at `i`, followed by the end or a byte
/// outside the class, is the span there.
pub proof fn lemma_span_exact(s: Seq<u8>, i: int, c: ByteClass, k: int)
    requires
        0 <= i,
        0 <= k,
        i + k <= s.len(),
        forall|j: int| i <= j < i + k ==> in_class(c, #[trigger] s[j]),
        i + k == s.len() || !in_class(c, s[i + k]),
    ensures
        span_at(s, i, c) == k,
{
    let t = s.skip(i);
    assert forall|j: int| 0 <= j < k implies in_class(c, #[trigger] t[j]) by {
        assert(t[j] == s[i + j]);
    }
    lemma_span(t, c, k);
}

/// The UTF-8 encoding of a non-empty text is not empty.
pub proof fn lemma_encode_nonempty(cs: Seq<char>)
    requires
        cs.len() > 0,
    ensures
        encode_utf8(cs).len() > 0,
{
    reveal_with_fuel(encode_utf8, 2);
}

/// A formatted HTTP version parses back when a byte that is not a digit follows it.
pub proof fn lemma_version_parses_back(v: (u16, u16), rest: Seq<u8>)
    requires
        rest.len() > 0,
        !is_digit_byte(rest[0]),
    ensures
        http_version(spec_version_bytes(v) + rest) == Ok::<((u16, u16), nat), nat>(
            (v, spec_version_bytes(v).len()),
        ),
{
    let d1 = dec_digits(v.0 as nat);
    let d2 = dec_digits(v.1 as nat);
    lemma_dec_digits(v.0 as nat);
    lemma_dec_digits(v.1 as nat);
    let s = spec_version_bytes(v) + rest;
    assert(starts_with_http(s));
    let w = s.skip(5);
    let n1 = d1.len() as int;
    let n2 = d2.len() as int;
    assert(w =~= d1 + seq![0x2Eu8] + d2 + rest);
    assert forall|j: int| 0 <= j < n1 implies in_class(ByteClass::Digit, #[trigger] w[j]) by {
        assert(w[j] == d1[j]);
    }
    lemma_span_exact(w, 0, ByteClass::Digit, n1);
    assert forall|j: int| n1 + 1 <= j < n1 + 1 + n2 implies in_class(ByteClass::Digit, #[trigger] w[j])
        by {
        assert(w[j] == d2[j - n1 - 1]);
    }
    assert(w[n1 + 1 + n2] == rest[0]);
    lemma_span_exact(w, n1 + 1, ByteClass::Digit, n2);
    assert(w.take(n1) =~= d1);
    assert(w.subrange(n1 + 1, n1 + 1 + n2) =~= d2);
}

/// Whether a request line can be written and read back: a non-empty token
/// method and a non-empty target without spaces or tabs.
pub open spec fn request_line_readable(l: RequestLineView) -> bool {
    &&& method_ok(l)
    &&& l.method.len() > 0
    &&& l.target.len() > 0
    &&& forall|i: int|
        0 <= i < encode_utf8(l.target).len() ==> !is_space_byte(#[trigger] encode_utf8(l.target)[i])
}

/// Parsing a formatted request line, with its line ending, gives back the
/// version, and the method and target as the lossless decoding of their
/// UTF-8 bytes; the method must be a token and the target non-empty and
/// without spaces or tabs.
#[verifier::rlimit(50)]
pub proof fn law_request_line_parses_back(l: RequestLineView)
    requires
        request_line_readable(l),
    ensures
        request_line(spec_request_line_bytes(l) + seq![0x0Du8, 0x0Au8]) == Ok::<
            (nat, nat, nat, (u16, u16)),
            nat,
        >(
            (
                encode_utf8(l.method).len(),
                encode_utf8(l.method).len() + 1,
                encode_utf8(l.method).len() + 1 + encode_utf8(l.target).len(),
                l.version,
            ),
        ),
        spec_parse_request_line(spec_request_line_bytes(l) + seq![0x0Du8, 0x0Au8]) == Ok::<
            RequestLineView,
            nat,
        >(
            RequestLineView {
                method: spec_decode(encode_utf8(l.method)),
                target: spec_decode(encode_utf8(l.target)),
                version: l.version,
            },
        ),
{
    let mb = encode_utf8(l.method);
    let tb = encode_utf8(l.target);
    lemma_encode_nonempty(l.method);
    lemma_encode_nonempty(l.target);
    let vb = spec_version_bytes(l.version) + seq![0x0Du8, 0x0Au8];
    lemma_version_parses_back(l.version, seq![0x0Du8, 0x0Au8]);
    let b = spec_request_line_bytes(l) + seq![0x0Du8, 0x0Au8];
    let m = mb.len() as int;
    let t = tb.len() as int;
    let vs = m + 2 + t;
    let n = spec_version_bytes(l.version).len() as int;
    assert(b =~= mb + seq![0x20u8] + tb + seq![0x20u8] + vb);
    assert forall|j: int| 0 <= j < m implies in_class(ByteClass::Token, #[trigger] b[j]) by {
        assert(b[j] == mb[j]);
    }
    assert(b[m] == 0x20u8);
    lemma_span_exact(b, 0, ByteClass::Token, m);
    assert(b[m + 1] == tb[0]);
    lemma_span_exact(b, m, ByteClass::Space, 1);
    assert forall|j: int| m + 1 <= j < m + 1 + t implies in_class(ByteClass::NotSpace, #[trigger] b[j])
        by {
        assert(b[j] == tb[j - m - 1]);
    }
    assert(b[m + 1 + t] == 0x20u8);
    lemma_span_exact(b, m + 1, ByteClass::NotSpace, t);
    assert(b[vs] == 0x48u8);
    lemma_span_exact(b, m + 1 + t, ByteClass::Space, 1);
    assert(b.skip(vs) =~= vb);
    assert(b.skip(vs + n) =~= seq![0x0Du8, 0x0Au8]);
    assert(request_line(b) == Ok::<(nat, nat, nat, (u16, u16)), nat>(
        (m as nat, (m + 1) as nat, (m + 1 + t) as nat, l.version),
    ));
    assert(b.take(m) =~= mb);
    assert(b.subrange(m + 1, m + 1 + t) =~= tb);
}

/// The text of a request line with invalid method characters replaced.
pub open spec fn spec_request_line_text(l: RequestLineView) -> Seq<char> {
    l.method.map_values(|c: char| name_lossy_char(c)) + seq![' '] + l.target + seq![' ']
        + ascii_chars(spec_version_bytes(l.version))
}

/// Appends `HTTP/` and the version numbers.
pub fn push_version(dest: &mut Vec<u8>, v: (u16, u16))
    ensures
        final(dest)@ == old(dest)@ + spec_version_bytes(v),
{
    dest.push(0x48);
    dest.push(0x54);
    dest.push(0x54);
    dest.push(0x50);
    dest.push(0x2F);
    push_decimal(dest, v.0 as u64);
    dest.push(0x2E);
    push_decimal(dest, v.1 as u64);
    assert(dest@ =~= old(dest)@ + spec_version_bytes(v));
}

/// Appends the bytes of a request line without its line ending.
pub(crate) fn push_request_line(line: &RequestLine, dest: &mut Vec<u8>)
    ensures
        final(dest)@ == old(dest)@ + spec_request_line_bytes(line@),
{
    dest.extend_from_slice(line.method.as_str().as_bytes());
    dest.push(0x20);
    dest.extend_from_slice(line.target.as_str().as_bytes());
    dest.push(0x20);
    push_version(dest, line.version);
    assert(dest@ =~= old(dest)@ + spec_request_line_bytes(line@));
}

impl RequestLine {
    /// Creates a `RequestLine` with the given values and default version.
    pub fn new(method: String, target: String) -> (r: Self)
        ensures
            r@ == (RequestLineView { method: method@, target: target@, version: (1, 1) }),
    {
        Self { method, target, version: DEFAULT_VERSION }
    }

    /// Parses a request line; the input includes its line ending.
    ///
    /// A request line written by [RequestLine::format] is read back: its
    /// method, its target (with each U+FFFD escaped as the lossless scheme
    /// does) and its version.
    pub fn parse_from(input: &[u8]) -> (r: Result<Self, HTTPError>)
        ensures
            match spec_parse_request_line(input@) {
                Ok(v) => r matches Ok(l) && l@ == v,
                Err(p) => is_start_line_error_at(r, input@, p),
            },
            forall|w: RequestLineView|
                #![trigger spec_request_line_bytes(w)]
                request_line_readable(w) && input@ == spec_request_line_bytes(w) + seq![
                    0x0Du8,
                    0x0Au8,
                ] ==> (r matches Ok(l) && l@ == (RequestLineView {
                    method: escape_valid(w.method),
                    target: escape_valid(w.target),
                    version: w.version,
                })),
    {
        let parsed = request_line_at(input);
        proof {
            assert forall|w: RequestLineView|
                #![trigger spec_request_line_bytes(w)]
                request_line_readable(w) && input@ == spec_request_line_bytes(w) + seq![
                    0x0Du8,
                    0x0Au8,
                ] implies parsed is Ok by {
                law_request_line_parses_back(w);
            }
        }
        match parsed {
            Ok((m, ts, te, version)) => {
                let method_bytes = crate::scan::copy_range(input, 0, m);
                let target_bytes = crate::scan::copy_range(input, ts, te);
                assert(method_bytes@ =~= input@.take(m as int));
                let method = <String as StringLosslessExt>::from_utf8_lossless(method_bytes.as_slice());
                let target = <String as StringLosslessExt>::from_utf8_lossless(target_bytes.as_slice());
                proof {
                    assert forall|w: RequestLineView|
                        #![trigger spec_request_line_bytes(w)]
                        request_line_readable(w) && input@ == spec_request_line_bytes(w) + seq![
                            0x0Du8,
                            0x0Au8,
                        ] implies method@ == escape_valid(w.method) && target@ == escape_valid(
                        w.target,
                    ) && version == w.version by {
                        law_request_line_parses_back(w);
                        let mb = encode_utf8(w.method);
                        let tb = encode_utf8(w.target);
                        assert(input@ =~= mb + seq![0x20u8] + tb + seq![0x20u8] + spec_version_bytes(
                            w.version,
                        ) + seq![0x0Du8, 0x0Au8]);
                        assert(method_bytes@ =~= mb);
                        assert(target_bytes@ =~= tb);
                        encode_utf8_valid_utf8(w.method);
                        encode_utf8_valid_utf8(w.target);
                        encode_utf8_decode_utf8(w.method);
                        encode_utf8_decode_utf8(w.target);
                    }
                }
                Ok(Self { method, target, version })
            },
            Err(p) => Err(
                HTTPError::InvalidStartLine {
                    source: Some(ErrorSource::Parse(ParseError::at(input, p))),
                },
            ),
        }
    }

    /// Writes the request line and its CRLF to `dest`.
    ///
    /// The method must consist of token characters; otherwise nothing is
    /// written and the error is `InvalidStartLine` without a source.
    pub fn format(&self, dest: &mut Vec<u8>) -> (r: Result<(), HTTPError>)
        ensures
            method_ok(self@) ==> r is Ok && final(dest)@ == old(dest)@ + spec_request_line_bytes(
                self@,
            ) + seq![0x0Du8, 0x0Au8],
            !method_ok(self@) ==> (r matches Err(HTTPError::InvalidStartLine { source: None })
                && final(dest)@ == old(dest)@),
    {
        self.validate()?;
        push_request_line(self, dest);
        dest.push(0x0D);
        dest.push(0x0A);
        Ok(())
    }

    fn validate(&self) -> (r: Result<(), HTTPError>)
        ensures
            method_ok(self@) ==> r is Ok,
            !method_ok(self@) ==> r matches Err(HTTPError::InvalidStartLine { source: None }),
    {
        let bytes = self.method.as_str().as_bytes();
        assert(bytes@ == encode_utf8(self@.method));
        if !all_token(bytes) {
            Err(HTTPError::InvalidStartLine { source: None })
        } else {
            Ok(())
        }
    }

    /// Returns the request line as text, with invalid method characters replaced.
    pub fn to_text_lossy(&self) -> (r: String)
        ensures
            r@ == spec_request_line_text(self@),
    {
        let mut out = token_text_lossy(self.method.as_str());
        string_push(&mut out, ' ');
        string_push_str(&mut out, self.target.as_str());
        string_push(&mut out, ' ');
        let mut version: Vec<u8> = Vec::new();
        push_version(&mut version, self.version);
        push_ascii(&mut out, version.as_slice());
        assert(out@ =~= spec_request_line_text(self@));
        out
    }

    /// Returns the request line as text, with invalid method characters replaced.
    pub fn to_string(&self) -> (r: String)
        ensures
            r@ == spec_request_line_text(self@),
    {
        self.to_text_lossy()
    }
}

/// Represents the types of RFC7230 request-target.
#[derive(Debug, Clone, Copy, PartialEq, Eq, Structural)]
pub enum RequestTarget {
    /// Direct request to server.
    Origin,
    /// Request to proxy.
    Absolute,
    /// CONNECT request.
    Authority,
    /// OPTIONS request.
    Asterisk,
}

/// Abstract contents of a [RequestHeader].
pub struct RequestHeaderView {
    /// The request line.
    pub request_line: RequestLineView,
    /// The fields.
    pub fields: Seq<FieldPairView>,
}

/// Represents the complete HTTP request header.
#[derive(Debug)]
pub struct RequestHeader {
    /// Request line.
    pub request_line: RequestLine,
    /// Name-value fields.
    pub fields: HeaderMap,
}

impl View for RequestHeader {
    type V = RequestHeaderView;

    open spec fn view(&self) -> RequestHeaderView {
        RequestHeaderView { request_line: self.request_line@, fields: self.fields@ }
    }
}

/// The formatter used for the fields of HTTP messages: raw bytes where
/// available, with validation.
pub open spec fn message_formatter() -> HeaderFormatter {
    HeaderFormatter { lossless_scheme: false, use_raw: true, disable_validation: false }
}

/// Whether `fields` are written by [format_fields] with `result` and `dest`
/// changed from `before` to `after`.
pub open spec fn fields_written(
    fields: Seq<FieldPairView>,
    result: Result<(), HTTPError>,
    before: Seq<u8>,
    after: Seq<u8>,
) -> bool {
    let f = message_formatter();
    if forall|i: int| 0 <= i < fields.len() ==> spec_pair_ok(f, #[trigger] fields[i]) {
        result is Ok && after == before + spec_formatted(f, fields)
    } else {
        exists|k: int|
            #![trigger fields[k]]
            {
                &&& 0 <= k < fields.len()
                &&& !spec_pair_ok(f, fields[k])
                &&& forall|j: int| 0 <= j < k ==> spec_pair_ok(f, #[trigger] fields[j])
                &&& after == before + spec_formatted(f, fields.take(k)) + spec_partial_line(
                    f,
                    fields[k],
                )
                &&& result matches Err(
                    HTTPError::MalformedHeader { source: Some(ErrorSource::Format(FormatError::Data(e))) },
                ) && e@.line == k
            }
    }
}

/// Writes the fields for a message, each followed by CRLF.
pub(crate) fn format_fields(fields: &HeaderMap, dest: &mut Vec<u8>) -> (r: Result<(), HTTPError>)
    ensures
        fields_written(fields@, r, old(dest)@, final(dest)@),
{
    let mut header_formatter = HeaderFormatter::new();
    header_formatter.use_raw(true);
    assert(header_formatter == message_formatter());
    match header_formatter.format_header(fields, dest) {
        Ok(_) => Ok(()),
        Err(error) => {
            let ghost k = error->Data_0@.line as int;
            let r = Err(HTTPError::MalformedHeader { source: Some(ErrorSource::Format(error)) });
            assert(fields@[k] == fields@[k]);
            r
        },
    }
}

/// The request header read from `buf`: the first line is the request line,
/// the rest the fields.
pub open spec fn spec_parse_request_header(buf: Seq<u8>) -> Result<
    RequestHeaderView,
    RequestHeaderError,
> {
    let l = line_len(buf);
    match spec_parse_request_line(buf.take(l as int)) {
        Err(p) => Err(RequestHeaderError::StartLine(buf.take(l as int), p)),
        Ok(line) => match spec_parse_header(buf.skip(l as int)) {
            Ok(fields) => Ok(RequestHeaderView { request_line: line, fields }),
            Err(e) => Err(RequestHeaderError::Fields(e)),
        },
    }
}

/// How parsing a message header fails.
pub enum RequestHeaderError {
    /// The start line, given as bytes, is malformed at the offset.
    StartLine(Seq<u8>, nat),
    /// The fields are malformed.
    Fields(crate::error::ParseErrorView),
}

/// Whether `r` is the error described by `e`.
pub open spec fn is_header_error<T>(r: Result<T, HTTPError>, e: RequestHeaderError) -> bool {
    match e {
        RequestHeaderError::StartLine(line, p) => is_start_line_error_at(r, line, p),
        RequestHeaderError::Fields(pe) => r matches Err(
            HTTPError::MalformedHeader { source: Some(ErrorSource::Parse(x)) },
        ) && x@ == pe,
    }
}

/// The bytes of a formatted request header: the request line, CRLF and
/// the fields.
pub open spec fn spec_request_header_bytes(h: RequestHeaderView) -> Seq<u8> {
    spec_request_line_bytes(h.request_line) + seq![0x0Du8, 0x0Au8] + spec_formatted(
        message_formatter(),
        h.fields,
    )
}

/// Whether a request header can be written and read back: its request line
/// can, its target holds no LF, and each field can.
pub open spec fn request_header_readable(h: RequestHeaderView) -> bool {
    &&& request_line_readable(h.request_line)
    &&& forall|i: int|
        0 <= i < encode_utf8(h.request_line.target).len() ==> #[trigger] encode_utf8(
            h.request_line.target,
        )[i] != 0x0Au8
    &&& forall|i: int|
        0 <= i < h.fields.len() ==> field_readable(message_formatter(), #[trigger] h.fields[i])
}

/// The request header that parsing gives back for a written one.
pub open spec fn request_header_read_back(h: RequestHeaderView) -> RequestHeaderView {
    RequestHeaderView {
        request_line: RequestLineView {
            method: spec_decode(encode_utf8(h.request_line.method)),
            target: spec_decode(encode_utf8(h.request_line.target)),
            version: h.request_line.version,
        },
        fields: h.fields.map_values(|p: FieldPairView| field_read_back(message_formatter(), p)),
    }
}

/// A formatted request header parses back: the request line as
/// [law_request_line_parses_back] gives it, and every field, in order, as
/// [crate::header::law_formatted_fields_parse_back] gives it.
pub proof fn law_request_header_parses_back(h: RequestHeaderView)
    requires
        request_header_readable(h),
    ensures
        spec_parse_request_header(spec_request_header_bytes(h)) == Ok::<
            RequestHeaderView,
            RequestHeaderError,
        >(request_header_read_back(h)),
{
    let f = message_formatter();
    let l = h.request_line;
    let mb = encode_utf8(l.method);
    let tb = encode_utf8(l.target);
    let vb = spec_version_bytes(l.version);
    let lb = spec_request_line_bytes(l);
    let fb = spec_formatted(f, h.fields);
    let b = spec_request_header_bytes(h);
    assert(lb =~= mb + seq![0x20u8] + tb + seq![0x20u8] + vb);
    lemma_version_no_lf(l.version);
    assert forall|j: int| 0 <= j < lb.len() + 1 implies b[j] != 0x0Au8 by {
        if j < mb.len() {
            assert(b[j] == mb[j]);
            assert(is_token_byte(mb[j]));
        } else if j == mb.len() {
        } else if j < mb.len() + 1 + tb.len() {
            assert(b[j] == tb[j - mb.len() - 1]);
        } else if j == mb.len() + 1 + tb.len() {
        } else if j < lb.len() {
            assert(b[j] == vb[j - mb.len() - 2 - tb.len()]);
        } else {
            assert(b[j] == 0x0Du8);
        }
    }
    assert(b[lb.len() + 1int] == 0x0Au8);
    lemma_find_byte(b, 0x0Au8, lb.len() + 1int);
    let n = lb.len() + 2;
    assert(b.take(n as int) =~= lb + seq![0x0Du8, 0x0Au8]);
    law_request_line_parses_back(l);
    assert(b.skip(n as int) =~= fb);
    law_formatted_fields_parse_back(f, h.fields);
}

impl RequestHeader {
    /// Creates a `RequestHeader` with the given values, default version, and empty fields.
    pub fn new(method: &str, target: &str) -> (r: Self)
        ensures
            r@.request_line == (RequestLineView { method: method@, target: target@, version: (1, 1) }),
            r@.fields.len() == 0,
    {
        Self {
            request_line: RequestLine::new(method.to_owned(), target.to_owned()),
            fields: HeaderMap::new(),
        }
    }

    /// Parses bytes into a new `RequestHeader`.
    ///
    /// The given buffer must not contain the CRLF that separates the fields
    /// and message body.
    pub fn parse_from(buf: &[u8]) -> (r: Result<Self, HTTPError>)
        requires
            buf@.len() > 0,
        ensures
            match spec_parse_request_header(buf@) {
                Ok(v) => r matches Ok(h) && h@ == v,
                Err(e) => is_header_error(r, e),
            },
            forall|w: RequestHeaderView|
                #![trigger spec_request_header_bytes(w)]
                request_header_readable(w) && buf@ == spec_request_header_bytes(w) ==> (r matches Ok(
                    h,
                ) && h@ == request_header_read_back(w)),
    {
        proof {
            assert forall|w: RequestHeaderView|
                #![trigger spec_request_header_bytes(w)]
                request_header_readable(w) && buf@ == spec_request_header_bytes(
                    w,
                ) implies spec_parse_request_header(buf@) == Ok::<
                RequestHeaderView,
                RequestHeaderError,
            >(request_header_read_back(w)) by {
                law_request_header_parses_back(w);
            }
        }
        let (line, field_buf) = cut_start_line(buf);
        let request_line = RequestLine::parse_from(line)?;
        let field_parser = HeaderParser::new();
        match field_parser.parse_header(field_buf) {
            Ok(fields) => Ok(Self { request_line, fields }),
            Err(error) => Err(HTTPError::MalformedHeader { source: Some(ErrorSource::Parse(error)) }),
        }
    }

    /// Formats the header suitable network data exchange.
    ///
    /// The output is appended to `dest`. The output does not include the
    /// CRLF that separates the fields and message body.
    pub fn format(&self, dest: &mut Vec<u8>) -> (r: Result<(), HTTPError>)
        ensures
            !method_ok(self@.request_line) ==> (r matches Err(
                HTTPError::InvalidStartLine { source: None },
            ) && final(dest)@ == old(dest)@),
            method_ok(self@.request_line) ==> fields_written(
                self@.fields,
                r,
                old(dest)@ + spec_request_line_bytes(self@.request_line) + seq![0x0Du8, 0x0Au8],
                final(dest)@,
            ),
    {
        self.request_line.format(dest)?;
        format_fields(&self.fields, dest)
    }

    /// Returns the header as text: the request line, CRLF, and the fields.
    ///
    /// Invalid characters are replaced; this is intended for debugging purposes.
    pub fn to_string(&self) -> (r: String)
        ensures
            r@ == spec_request_line_text(self@.request_line) + seq!['\r', '\n']
                + crate::header::spec_map_text(self@.fields),
    {
        let mut out = self.request_line.to_text_lossy();
        string_push(&mut out, '\r');
        string_push(&mut out, '\n');
        let fields = self.fields.to_string();
        string_push_str(&mut out, fields.as_str());
        out
    }
}

/// The request target of a URL for each request form.
pub open spec fn spec_request_target(url: UrlPartsView, target: RequestTarget) -> Seq<char> {
    match target {
        RequestTarget::Origin => match url.query {
            Some(q) => url.path + seq!['?'] + q,
            None => url.path,
        },
        RequestTarget::Absolute => url.serialization,
        RequestTarget::Authority => {
            let host = match url.host {
                Some(h) => h,
                None => seq![],
            };
            let port = match url.port {
                Some(p) => p,
                None => match default_port(url.scheme) {
                    Some(p) => p,
                    None => 0u16,
                },
            };
            host + seq![':'] + ascii_chars(dec_digits(port as nat))
        },
        RequestTarget::Asterisk => seq!['*'],
    }
}

/// Returns a request target for the given URL.
pub fn url_to_request_target(url: &UrlParts, target: RequestTarget) -> (r: String)
    ensures
        r@ == spec_request_target(url@, target),
        target == RequestTarget::Origin && url@.query is None ==> r@ == url@.path,
{
    match target {
        RequestTarget::Origin => {
            let mut path_and_query = url.path.clone();
            if let Some(query) = &url.query {
                string_push(&mut path_and_query, '?');
                string_push_str(&mut path_and_query, query.as_str());
            }
            path_and_query
        },
        RequestTarget::Absolute => url.serialization.clone(),
        RequestTarget::Authority => {
            let mut out = match &url.host {
                Some(h) => h.clone(),
                None => String::new(),
            };
            string_push(&mut out, ':');
            let port = match url.port_or_known_default() {
                Some(p) => p,
                None => 0,
            };
            let mut digits: Vec<u8> = Vec::new();
            push_decimal(&mut digits, port as u64);
            push_ascii(&mut out, digits.as_slice());
            out
        },
        RequestTarget::Asterisk => {
            let mut out = String::new();
            string_push(&mut out, '*');
            out
        },
    }
}

/// In origin form the target is the URL's path, followed by `?` and the
/// query only when the URL has a query: a URL without a query gives its
/// path unchanged.
pub proof fn law_origin_target(url: UrlPartsView)
    ensures
        spec_request_target(url, RequestTarget::Origin).take(url.path.len() as int) == url.path,
        url.query is None ==> spec_request_target(url, RequestTarget::Origin) == url.path,
        url.query matches Some(q) ==> {
            let t = spec_request_target(url, RequestTarget::Origin);
            &&& t.len() == url.path.len() + 1 + q.len()
            &&& t[url.path.len() as int] == '?'
            &&& t.skip(url.path.len() + 1int) == q
        },
{
    let t = spec_request_target(url, RequestTarget::Origin);
    match url.query {
        Some(q) => {
            assert(t.take(url.path.len() as int) =~= url.path);
            assert(t.skip(url.path.len() + 1int) =~= q);
        },
        None => {
            assert(t.take(url.path.len() as int) =~= url.path);
        },
    }
}

/// The asterisk form is `*` and the absolute form the whole URL.
pub proof fn law_other_targets(url: UrlPartsView)
    ensures
        spec_request_target(url, RequestTarget::Asterisk) == seq!['*'],
        spec_request_target(url, RequestTarget::Absolute) == url.serialization,
{
}

} // verus!
