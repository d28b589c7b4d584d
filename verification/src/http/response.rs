//! HTTP response status line and header.
use vstd::prelude::*;
use vstd::utf8::{encode_utf8, encode_utf8_decode_utf8, encode_utf8_valid_utf8};

use super::pc::{http_version, span_at, status_line, status_line_at};
use super::request::{
    fields_written, format_fields, is_header_error, lemma_version_no_lf, message_formatter,
    push_version, spec_parse_request_line, spec_version_bytes, RequestHeaderError,
};
use super::util::cut_start_line;
use super::{is_start_line_error_at, ErrorSource, HTTPError, Version, DEFAULT_VERSION};
use crate::error::ParseError;
use crate::header::{
    field_read_back, field_readable, law_formatted_fields_parse_back, line_len, spec_formatted, spec_map_text, spec_pair_ok, spec_parse_header,
    spec_trim_trailing_crlf, trim_trailing_crlf, FieldPairView, HeaderMap, HeaderParser,
};
use crate::num::{ascii_chars, dec_digits_pad3, dec_value, lemma_dec_digits_pad3, push_ascii, push_decimal_pad3};
use crate::scan::{find_byte, in_class, lemma_find_byte, line_ending_len, ByteClass};
use crate::stringesc::{escape_valid, spec_decode, StringLosslessExt};
use crate::stringutil::{is_control_byte, str_to_chars, string_push, string_push_str};

verus! {

/// Abstract contents of a [StatusLine].
pub struct StatusLineView {
    /// HTTP version.
    pub version: (u16, u16),
    /// Status code.
    pub status_code: u16,
    /// Reason phrase.
    pub reason_phrase: Seq<char>,
}

/// Represents a start line for a response.
#[derive(Debug)]
pub struct StatusLine {
    /// HTTP version.
    pub version: Version,
    /// Status code such as 200.
    pub status_code: u16,
    /// Reason phrase such as "OK".
    pub reason_phrase: String,
}

impl View for StatusLine {
    type V = StatusLineView;

    open spec fn view(&self) -> StatusLineView {
        StatusLineView {
            version: self.version,
            status_code: self.status_code,
            reason_phrase: self.reason_phrase@,
        }
    }
}

/// The status line read from `input`, or the offset where it is malformed.
pub open spec fn spec_parse_status_line(input: Seq<u8>) -> Result<StatusLineView, nat> {
    match status_line(input) {
        Ok((v, code, rs, re)) => Ok(
            StatusLineView {
                version: v,
                status_code: code,
                reason_phrase: spec_decode(input.subrange(rs as int, re as int)),
            },
        ),
        Err(p) => Err(p),
    }
}

/// Whether a byte may stand in a reason phrase: HTAB, SP, visible ASCII or obs-text.
pub open spec fn is_reason_byte(b: u8) -> bool {
    b == 0x09 || b == 0x20 || (0x21 <= b && b <= 0x7E) || b >= 0x80
}

/// Whether every byte of the reason phrase may be written.
pub open spec fn reason_ok(l: StatusLineView) -> bool {
    forall|i: int|
        0 <= i < encode_utf8(l.reason_phrase).len() ==> is_reason_byte(
            #[trigger] encode_utf8(l.reason_phrase)[i],
        )
}

/// The bytes before the reason phrase: version, SP, three-digit code, SP.
pub open spec fn spec_status_prefix(l: StatusLineView) -> Seq<u8> {
    spec_version_bytes(l.version) + seq![0x20u8] + dec_digits_pad3(l.status_code as nat) + seq![
        0x20u8,
    ]
}

/// The bytes of a status line without its line ending.
pub open spec fn spec_status_line_bytes(l: StatusLineView) -> Seq<u8> {
    spec_status_prefix(l) + encode_utf8(l.reason_phrase)
}

/// Whether a status line can be written and read back: its reason phrase
/// holds no control character.
pub open spec fn status_line_readable(l: StatusLineView) -> bool {
    forall|i: int|
        0 <= i < encode_utf8(l.reason_phrase).len() ==> !is_control_byte(
            #[trigger] encode_utf8(l.reason_phrase)[i],
        )
}

/// Parsing a formatted status line, with its line ending, gives back the
/// version and status code, and the reason phrase as the lossless decoding
/// of its UTF-8 bytes; the reason phrase must hold no control character.
#[verifier::rlimit(50)]
pub proof fn law_status_line_parses_back(l: StatusLineView)
    requires
        status_line_readable(l),
    ensures
        status_line(spec_status_line_bytes(l) + seq![0x0Du8, 0x0Au8]) == Ok::<
            ((u16, u16), u16, nat, nat),
            nat,
        >(
            (
                l.version,
                l.status_code,
                spec_status_prefix(l).len(),
                spec_status_prefix(l).len() + encode_utf8(l.reason_phrase).len(),
            ),
        ),
        spec_parse_status_line(spec_status_line_bytes(l) + seq![0x0Du8, 0x0Au8]) == Ok::<
            StatusLineView,
            nat,
        >(
            StatusLineView {
                version: l.version,
                status_code: l.status_code,
                reason_phrase: spec_decode(encode_utf8(l.reason_phrase)),
            },
        ),
{
    let vb = spec_version_bytes(l.version);
    let cb = dec_digits_pad3(l.status_code as nat);
    let rb = encode_utf8(l.reason_phrase);
    let b = spec_status_line_bytes(l) + seq![0x0Du8, 0x0Au8];
    let n = vb.len() as int;
    let c = cb.len() as int;
    let r = rb.len() as int;
    let rs = n + 1 + c + 1;
    lemma_dec_digits_pad3(l.status_code as nat);
    assert(b =~= vb + (seq![0x20u8] + cb + seq![0x20u8] + rb + seq![0x0Du8, 0x0Au8]));
    super::request::lemma_version_parses_back(
        l.version,
        seq![0x20u8] + cb + seq![0x20u8] + rb + seq![0x0Du8, 0x0Au8],
    );
    assert(http_version(b) == Ok::<((u16, u16), nat), nat>((l.version, n as nat)));
    assert(b[n] == 0x20u8);
    assert forall|j: int| n + 1 <= j < n + 1 + c implies in_class(ByteClass::Digit, #[trigger] b[j])
        by {
        assert(b[j] == cb[j - n - 1]);
    }
    assert(b[n + 1 + c] == 0x20u8);
    super::request::lemma_span_exact(b, n + 1, ByteClass::Digit, c);
    assert(b.subrange(n + 1, n + 1 + c) =~= cb);
    assert forall|j: int| rs <= j < rs + r implies in_class(ByteClass::NotControl, #[trigger] b[j])
        by {
        assert(b[j] == rb[j - rs]);
    }
    assert(b[rs + r] == 0x0Du8);
    super::request::lemma_span_exact(b, rs, ByteClass::NotControl, r);
    assert(b.skip(rs + r) =~= seq![0x0Du8, 0x0Au8]);
    assert(line_ending_len(b.skip(rs + r)) == 2);
    assert(status_line(b) == Ok::<((u16, u16), u16, nat, nat), nat>(
        (l.version, l.status_code, rs as nat, (rs + r) as nat),
    ));
    assert(b.subrange(rs, rs + r) =~= rb);
}

/// A reason phrase character, with ASCII control characters replaced.
pub open spec fn reason_lossy_char(c: char) -> char {
    if (c as u32) < 0x20 || (c as u32) == 0x7F {
        '\u{FFFD}'
    } else {
        c
    }
}

/// The text of a status line with control characters replaced.
pub open spec fn spec_status_line_text(l: StatusLineView) -> Seq<char> {
    ascii_chars(spec_status_prefix(l)) + l.reason_phrase.map_values(|c: char| reason_lossy_char(c))
}

fn push_status_prefix(line: &StatusLine, dest: &mut Vec<u8>)
    ensures
        final(dest)@ == old(dest)@ + spec_status_prefix(line@),
{
    push_version(dest, line.version);
    dest.push(0x20);
    push_decimal_pad3(dest, line.status_code as u64);
    dest.push(0x20);
    assert(dest@ =~= old(dest)@ + spec_status_prefix(line@));
}

impl StatusLine {
    /// Creates a `StatusLine` with the given code, default version and an
    /// empty reason phrase.
    pub fn new(status_code: u16) -> (r: Self)
        ensures
            r@ == (StatusLineView {
                version: (1, 1),
                status_code,
                reason_phrase: Seq::<char>::empty(),
            }),
    {
        Self { version: DEFAULT_VERSION, status_code, reason_phrase: String::new() }
    }

    /// Parses a status line; the input includes its line ending.
    ///
    /// A status line written by [StatusLine::format] is read back: its
    /// version, its status code and its reason phrase (with each U+FFFD
    /// escaped as the lossless scheme does).
    pub fn parse_from(input: &[u8]) -> (r: Result<Self, HTTPError>)
        ensures
            match spec_parse_status_line(input@) {
                Ok(v) => r matches Ok(l) && l@ == v,
                Err(p) => is_start_line_error_at(r, input@, p),
            },
            forall|w: StatusLineView|
                #![trigger spec_status_line_bytes(w)]
                status_line_readable(w) && input@ == spec_status_line_bytes(w) + seq![
                    0x0Du8,
                    0x0Au8,
                ] ==> (r matches Ok(l) && l@ == (StatusLineView {
                    version: w.version,
                    status_code: w.status_code,
                    reason_phrase: escape_valid(w.reason_phrase),
                })),
    {
        let parsed = status_line_at(input);
        proof {
            assert forall|w: StatusLineView|
                #![trigger spec_status_line_bytes(w)]
                status_line_readable(w) && input@ == spec_status_line_bytes(w) + seq![
                    0x0Du8,
                    0x0Au8,
                ] implies parsed is Ok by {
                law_status_line_parses_back(w);
            }
        }
        match parsed {
            Ok((version, status_code, rs, re)) => {
                let reason = crate::scan::copy_range(input, rs, re);
                let reason_phrase = <String as StringLosslessExt>::from_utf8_lossless(reason.as_slice());
                proof {
                    assert forall|w: StatusLineView|
                        #![trigger spec_status_line_bytes(w)]
                        status_line_readable(w) && input@ == spec_status_line_bytes(w) + seq![
                            0x0Du8,
                            0x0Au8,
                        ] implies reason_phrase@ == escape_valid(w.reason_phrase) && version
                        == w.version && status_code == w.status_code by {
                        law_status_line_parses_back(w);
                        let rb = encode_utf8(w.reason_phrase);
                        assert(input@ =~= spec_status_prefix(w) + rb + seq![0x0Du8, 0x0Au8]);
                        assert(reason@ =~= rb);
                        encode_utf8_valid_utf8(w.reason_phrase);
                        encode_utf8_decode_utf8(w.reason_phrase);
                    }
                }
                Ok(Self { version, status_code, reason_phrase })
            },
            Err(p) => Err(
                HTTPError::InvalidStartLine {
                    source: Some(ErrorSource::Parse(ParseError::at(input, p))),
                },
            ),
        }
    }

    /// Writes the status line, without its line ending, to `dest`.
    ///
    /// The reason phrase may hold only HTAB, SP, visible ASCII and obs-text;
    /// otherwise nothing is written and the error is `InvalidStartLine`
    /// without a source.
    pub fn format(&self, dest: &mut Vec<u8>) -> (r: Result<(), HTTPError>)
        ensures
            reason_ok(self@) ==> r is Ok && final(dest)@ == old(dest)@ + spec_status_line_bytes(
                self@,
            ),
            !reason_ok(self@) ==> (r matches Err(HTTPError::InvalidStartLine { source: None })
                && final(dest)@ == old(dest)@),
    {
        self.validate()?;
        push_status_prefix(self, dest);
        dest.extend_from_slice(self.reason_phrase.as_str().as_bytes());
        assert(dest@ =~= old(dest)@ + spec_status_line_bytes(self@));
        Ok(())
    }

    fn validate(&self) -> (r: Result<(), HTTPError>)
        ensures
            reason_ok(self@) ==> r is Ok,
            !reason_ok(self@) ==> r matches Err(HTTPError::InvalidStartLine { source: None }),
    {
        let bytes = self.reason_phrase.as_str().as_bytes();
        assert(bytes@ == encode_utf8(self@.reason_phrase));
        let mut i: usize = 0;
        while i < bytes.len()
            invariant
                0 <= i <= bytes@.len(),
                bytes@ == encode_utf8(self@.reason_phrase),
                forall|j: int| 0 <= j < i ==> is_reason_byte(#[trigger] bytes@[j]),
            decreases bytes@.len() - i,
        {
            let b = bytes[i];
            if !(b == 0x09 || b == 0x20 || (0x21 <= b && b <= 0x7E) || b >= 0x80) {
                assert(!is_reason_byte(bytes@[i as int]));
                return Err(HTTPError::InvalidStartLine { source: None });
            }
            i = i + 1;
        }
        Ok(())
    }

    /// Returns the status line as text, with control characters replaced.
    pub fn to_text_lossy(&self) -> (r: String)
        ensures
            r@ == spec_status_line_text(self@),
    {
        let mut prefix: Vec<u8> = Vec::new();
        push_status_prefix(self, &mut prefix);
        let mut out = String::new();
        push_ascii(&mut out, prefix.as_slice());
        let chars = str_to_chars(self.reason_phrase.as_str());
        let ghost start = out@;
        let mut i: usize = 0;
        while i < chars.len()
            invariant
                0 <= i <= chars@.len(),
                chars@ == self.reason_phrase@,
                out@ == start + chars@.take(i as int).map_values(|c: char| reason_lossy_char(c)),
            decreases chars@.len() - i,
        {
            let c = chars[i];
            if (c as u32) < 0x20 || (c as u32) == 0x7F {
                string_push(&mut out, '\u{FFFD}');
            } else {
                string_push(&mut out, c);
            }
            i = i + 1;
            assert(chars@.take(i as int).map_values(|c: char| reason_lossy_char(c)) =~= chars@.take(
                i - 1,
            ).map_values(|c: char| reason_lossy_char(c)).push(reason_lossy_char(c)));
        }
        assert(chars@.take(i as int) =~= chars@);
        out
    }

    /// Returns the status line as text, with control characters replaced.
    pub fn to_string(&self) -> (r: String)
        ensures
            r@ == spec_status_line_text(self@),
    {
        self.to_text_lossy()
    }
}

/// Abstract contents of a [ResponseHeader].
pub struct ResponseHeaderView {
    /// The status line.
    pub status_line: StatusLineView,
    /// The fields.
    pub fields: Seq<FieldPairView>,
}

/// Represents the complete HTTP response header.
#[derive(Debug)]
pub struct ResponseHeader {
    /// Status line.
    pub status_line: StatusLine,
    /// Name-value fields.
    pub fields: HeaderMap,
}

impl View for ResponseHeader {
    type V = ResponseHeaderView;

    open spec fn view(&self) -> ResponseHeaderView {
        ResponseHeaderView { status_line: self.status_line@, fields: self.fields@ }
    }
}

/// The response header read from `buf`: the first line is the status line,
/// the rest, without one trailing line ending, the fields.
pub open spec fn spec_parse_response_header(buf: Seq<u8>) -> Result<
    ResponseHeaderView,
    RequestHeaderError,
> {
    let l = line_len(buf);
    match spec_parse_status_line(buf.take(l as int)) {
        Err(p) => Err(RequestHeaderError::StartLine(buf.take(l as int), p)),
        Ok(line) => match spec_parse_header(spec_trim_trailing_crlf(buf.skip(l as int))) {
            Ok(fields) => Ok(ResponseHeaderView { status_line: line, fields }),
            Err(e) => Err(RequestHeaderError::Fields(e)),
        },
    }
}

/// Whether every field may be written for a message.
pub open spec fn all_fields_ok(fields: Seq<FieldPairView>) -> bool {
    forall|i: int| 0 <= i < fields.len() ==> spec_pair_ok(message_formatter(), #[trigger] fields[i])
}

/// The bytes of a formatted response header: the status line, CRLF, the
/// fields, and the CRLF that ends the header.
pub open spec fn spec_response_header_bytes(h: ResponseHeaderView) -> Seq<u8> {
    spec_status_line_bytes(h.status_line) + seq![0x0Du8, 0x0Au8] + spec_formatted(
        message_formatter(),
        h.fields,
    ) + seq![0x0Du8, 0x0Au8]
}

/// Whether a response header can be written and read back: its status line
/// and each of its fields can.
pub open spec fn response_header_readable(h: ResponseHeaderView) -> bool {
    &&& status_line_readable(h.status_line)
    &&& forall|i: int|
        0 <= i < h.fields.len() ==> field_readable(message_formatter(), #[trigger] h.fields[i])
}

/// The response header that parsing gives back for a written one.
pub open spec fn response_header_read_back(h: ResponseHeaderView) -> ResponseHeaderView {
    ResponseHeaderView {
        status_line: StatusLineView {
            version: h.status_line.version,
            status_code: h.status_line.status_code,
            reason_phrase: spec_decode(encode_utf8(h.status_line.reason_phrase)),
        },
        fields: h.fields.map_values(|p: FieldPairView| field_read_back(message_formatter(), p)),
    }
}

/// The line length of a formatted header is that of its status line and CRLF.
proof fn lemma_status_line_len(l: StatusLineView, rest: Seq<u8>)
    requires
        status_line_readable(l),
    ensures
        line_len(spec_status_line_bytes(l) + seq![0x0Du8, 0x0Au8] + rest) == spec_status_line_bytes(
            l,
        ).len() + 2,
{
    let vb = spec_version_bytes(l.version);
    let cb = dec_digits_pad3(l.status_code as nat);
    let rb = encode_utf8(l.reason_phrase);
    let sb = spec_status_line_bytes(l);
    let b = sb + seq![0x0Du8, 0x0Au8] + rest;
    lemma_version_no_lf(l.version);
    lemma_dec_digits_pad3(l.status_code as nat);
    assert(sb =~= vb + seq![0x20u8] + cb + seq![0x20u8] + rb);
    assert forall|j: int| 0 <= j < sb.len() + 1 implies b[j] != 0x0Au8 by {
        if j < vb.len() {
            assert(b[j] == vb[j]);
        } else if j == vb.len() {
        } else if j < vb.len() + 1 + cb.len() {
            assert(b[j] == cb[j - vb.len() - 1]);
        } else if j == vb.len() + 1 + cb.len() {
        } else if j < sb.len() {
            assert(b[j] == rb[j - vb.len() - 2 - cb.len()]);
            assert(!is_control_byte(rb[j - vb.len() - 2 - cb.len()]));
        } else {
            assert(b[j] == 0x0Du8);
        }
    }
    assert(b[sb.len() + 1int] == 0x0Au8);
    lemma_find_byte(b, 0x0Au8, sb.len() + 1int);
}

/// A formatted response header parses back: the status line as
/// [law_status_line_parses_back] gives it, and every field, in order, as
/// [law_formatted_fields_parse_back] gives it, when the reason phrase holds
/// no control character and each field is readable.
pub proof fn law_response_header_parses_back(h: ResponseHeaderView)
    requires
        response_header_readable(h),
    ensures
        spec_parse_response_header(spec_response_header_bytes(h)) == Ok::<
            ResponseHeaderView,
            RequestHeaderError,
        >(response_header_read_back(h)),
{
    let f = message_formatter();
    let sb = spec_status_line_bytes(h.status_line);
    let fb = spec_formatted(f, h.fields);
    let b = spec_response_header_bytes(h);
    assert(b =~= sb + seq![0x0Du8, 0x0Au8] + (fb + seq![0x0Du8, 0x0Au8]));
    lemma_status_line_len(h.status_line, fb + seq![0x0Du8, 0x0Au8]);
    let l = sb.len() + 2;
    assert(b.take(l as int) =~= sb + seq![0x0Du8, 0x0Au8]);
    law_status_line_parses_back(h.status_line);
    assert(b.skip(l as int) =~= fb + seq![0x0Du8, 0x0Au8]);
    let t = fb + seq![0x0Du8, 0x0Au8];
    assert(spec_trim_trailing_crlf(t) =~= fb);
    law_formatted_fields_parse_back(f, h.fields);
}

impl ResponseHeader {
    /// Creates a `ResponseHeader` with the given status code and empty fields.
    pub fn new(status_code: u16) -> (r: Self)
        ensures
            r@.status_line == (StatusLineView {
                version: (1, 1),
                status_code,
                reason_phrase: Seq::<char>::empty(),
            }),
            r@.fields.len() == 0,
    {
        Self { status_line: StatusLine::new(status_code), fields: HeaderMap::new() }
    }

    /// Creates the header of an HTTP/0.9 response, which has none on the
    /// wire: version 0.9, status code 200, no reason phrase and no fields.
    pub fn new_09() -> (r: Self)
        ensures
            r@.status_line == (StatusLineView {
                version: (0, 9),
                status_code: 200,
                reason_phrase: Seq::<char>::empty(),
            }),
            r@.fields.len() == 0,
    {
        Self {
            status_line: StatusLine { version: (0, 9), status_code: 200, reason_phrase: String::new() },
            fields: HeaderMap::new(),
        }
    }

    /// Parses bytes into a new `ResponseHeader`.
    ///
    /// One line ending after the fields is ignored.
    pub fn parse_from(buf: &[u8]) -> (r: Result<Self, HTTPError>)
        requires
            buf@.len() > 0,
        ensures
            match spec_parse_response_header(buf@) {
                Ok(v) => r matches Ok(h) && h@ == v,
                Err(e) => is_header_error(r, e),
            },
            forall|w: ResponseHeaderView|
                #![trigger spec_response_header_bytes(w)]
                response_header_readable(w) && buf@ == spec_response_header_bytes(w) ==> (r matches Ok(
                    h,
                ) && h@ == response_header_read_back(w)),
    {
        proof {
            assert forall|w: ResponseHeaderView|
                #![trigger spec_response_header_bytes(w)]
                response_header_readable(w) && buf@ == spec_response_header_bytes(
                    w,
                ) implies spec_parse_response_header(buf@) == Ok::<
                ResponseHeaderView,
                RequestHeaderError,
            >(response_header_read_back(w)) by {
                law_response_header_parses_back(w);
            }
        }
        let (line, remain) = cut_start_line(buf);
        let status_line = StatusLine::parse_from(line)?;
        let field_buf = trim_trailing_crlf(remain);
        let field_parser = HeaderParser::new();
        match field_parser.parse_header(field_buf) {
            Ok(fields) => Ok(Self { status_line, fields }),
            Err(error) => Err(HTTPError::MalformedHeader { source: Some(ErrorSource::Parse(error)) }),
        }
    }

    /// Formats the header suitable network data exchange: the status line,
    /// CRLF, the fields, and the CRLF that ends the header.
    pub fn format(&self, dest: &mut Vec<u8>) -> (r: Result<(), HTTPError>)
        ensures
            !reason_ok(self@.status_line) ==> (r matches Err(
                HTTPError::InvalidStartLine { source: None },
            ) && final(dest)@ == old(dest)@),
            reason_ok(self@.status_line) && all_fields_ok(self@.fields) ==> r is Ok && final(dest)@
                == old(dest)@ + spec_status_line_bytes(self@.status_line) + seq![0x0Du8, 0x0Au8]
                + spec_formatted(message_formatter(), self@.fields) + seq![0x0Du8, 0x0Au8],
            reason_ok(self@.status_line) && !all_fields_ok(self@.fields) ==> fields_written(
                self@.fields,
                r,
                old(dest)@ + spec_status_line_bytes(self@.status_line) + seq![0x0Du8, 0x0Au8],
                final(dest)@,
            ),
    {
        self.status_line.format(dest)?;
        dest.push(0x0D);
        dest.push(0x0A);
        assert(dest@ =~= old(dest)@ + spec_status_line_bytes(self@.status_line) + seq![0x0Du8, 0x0Au8]);
        let written = format_fields(&self.fields, dest);
        if written.is_err() {
            return written;
        }
        dest.push(0x0D);
        dest.push(0x0A);
        Ok(())
    }

    /// Returns the header as text: the status line, the fields, and CRLF.
    ///
    /// Invalid characters are replaced; this is intended for debugging purposes.
    pub fn to_string(&self) -> (r: String)
        ensures
            r@ == spec_status_line_text(self@.status_line) + spec_map_text(self@.fields) + seq![
                '\r',
                '\n',
            ],
    {
        let mut out = self.status_line.to_text_lossy();
        let fields = self.fields.to_string();
        string_push_str(&mut out, fields.as_str());
        string_push(&mut out, '\r');
        string_push(&mut out, '\n');
        out
    }
}

} // verus!
