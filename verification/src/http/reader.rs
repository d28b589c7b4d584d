//! How a message body is framed and encoded, decided from its header.
use vstd::prelude::*;

use super::chunked::{chunked_from_line, ChunkedReader, TakeReader};
use super::field::{spec_get_comma_list, HeaderMapExt};
use super::{
    is_header_error, spec_parse_request_header, spec_parse_response_header, ChunkedEncodingOption,
    CompressionOption, ErrorSource, HTTPError, RequestHeader, RequestHeaderView, RequestLine,
    ResponseHeader, ResponseHeaderView,
};
use crate::compress::{decoded_stream, format_for_name, CompressionFormat, Decompressor};
use crate::header::{
    boundary_end, lemma_boundary_end_bounds, limited, line_len, read_until_boundary, spec_get, spec_trim_trailing_crlf, trim_trailing_crlf,
    FieldPairView, HeaderMap,
};
use crate::io::{ByteBufRead, ByteRead, IoError, IoErrorKind, PeekRead};
use crate::stringutil::{lower_byte, lower_chars, str_eq, str_to_chars, to_lower_byte};

verus! {

/// The value of a decimal numeral with an optional leading `+`, as Rust's
/// `u64::from_str` reads it; `None` for anything else or a value too large.
pub open spec fn u64_from_chars(s: Seq<char>) -> Option<u64> {
    let d = unsigned_part(s);
    if d.len() == 0 || !(forall|i: int| 0 <= i < d.len() ==> '0' <= #[trigger] d[i] <= '9') {
        None
    } else if digits_value(d) > u64::MAX {
        None
    } else {
        Some(digits_value(d) as u64)
    }
}

/// The characters after an optional leading `+`.
pub open spec fn unsigned_part(s: Seq<char>) -> Seq<char> {
    if s.len() > 0 && s[0] == '+' {
        s.drop_first()
    } else {
        s
    }
}

/// The value of a sequence of decimal digit characters.
pub open spec fn digits_value(d: Seq<char>) -> nat
    decreases d.len(),
{
    if d.len() == 0 {
        0
    } else {
        digits_value(d.drop_last()) * 10 + ((d.last() as u32) - 0x30) as nat
    }
}

proof fn lemma_digits_grow(d: Seq<char>, i: int)
    requires
        0 <= i <= d.len(),
        forall|j: int| 0 <= j < d.len() ==> '0' <= #[trigger] d[j] <= '9',
    ensures
        digits_value(d.take(i)) <= digits_value(d),
    decreases d.len() - i,
{
    if i < d.len() {
        lemma_digits_grow(d, i + 1);
        assert(d.take(i + 1).drop_last() =~= d.take(i));
    } else {
        assert(d.take(i) =~= d);
    }
}

/// Parses a decimal `u64` the way `u64::from_str` does.
#[verifier::loop_isolation(false)]
pub fn parse_u64(s: &str) -> (r: Option<u64>)
    ensures
        r == u64_from_chars(s@),
{
    let chars = str_to_chars(s);
    let mut i: usize = 0;
    if chars.len() > 0 && chars[0] == '+' {
        i = 1;
    }
    let ghost d = unsigned_part(s@);
    let start = i;
    assert(d =~= s@.skip(start as int));
    if i == chars.len() {
        return None;
    }
    let mut value: u64 = 0;
    while i < chars.len()
        invariant
            start <= i <= chars@.len(),
            chars@ == s@,
            d == s@.skip(start as int),
            forall|j: int| 0 <= j < i - start ==> '0' <= #[trigger] d[j] <= '9',
            value == digits_value(d.take(i - start)),
        decreases chars@.len() - i,
    {
        let c = chars[i];
        if !('0' <= c && c <= '9') {
            assert(!('0' <= d[i - start] <= '9'));
            assert(!(forall|j: int| 0 <= j < d.len() ==> '0' <= #[trigger] d[j] <= '9'));
            assert(u64_from_chars(s@) is None);
            return None;
        }
        let digit = ((c as u32) - 0x30) as u64;
        assert(d.take(i + 1 - start).drop_last() =~= d.take(i - start));
        if value > (u64::MAX - digit) / 10 {
            proof {
                assert(digits_value(d.take(i + 1 - start)) == value * 10 + digit);
                assert(value * 10 + digit > u64::MAX) by (nonlinear_arith)
                    requires
                        value > (u64::MAX - digit) / 10,
                        digit <= 9,
                ;
                assert forall|j: int| 0 <= j < i + 1 - start implies '0' <= #[trigger] d[j] <= '9' by {
                }
                if forall|j: int| 0 <= j < d.len() ==> '0' <= #[trigger] d[j] <= '9' {
                    lemma_digits_grow(d, i + 1 - start);
                }
                assert(u64_from_chars(s@) is None);
            }
            return None;
        }
        assert(value * 10 + digit <= u64::MAX) by (nonlinear_arith)
            requires
                value <= (u64::MAX - digit) / 10,
                digit <= 9,
        ;
        value = value * 10 + digit;
        i = i + 1;
    }
    assert(d.take(i - start) =~= d);
    Some(value)
}

/// The body length decided from a header (RFC 9112 6.2 and 6.3): `Some(0)`
/// after a HEAD request or for a 1xx, 204 or 304 response, `None` (read until
/// the transfer coding ends or the connection closes) with a Transfer-Encoding
/// field, else the Content-Length values, which must all agree, else `None`
/// for a response and `Some(0)` for a request. `Err` for a Content-Length
/// that is not a number or that disagrees.
pub open spec fn spec_content_length(
    fields: Seq<FieldPairView>,
    request_method: Option<Seq<char>>,
    response_status: Option<u16>,
) -> Result<Option<u64>, ()> {
    let lengths = spec_get_comma_list(fields, "content-length"@);
    if request_method matches Some(m) && m == "HEAD"@ {
        Ok(Some(0))
    } else if response_status matches Some(c) && ((100 <= c && c < 200) || c == 204 || c == 304) {
        Ok(Some(0))
    } else if spec_get(fields, "transfer-encoding"@) is Some {
        Ok(None)
    } else if lengths.len() > 0 {
        if forall|i: int| 0 <= i < lengths.len() ==> #[trigger] lengths[i] == lengths[0] {
            match u64_from_chars(lengths[0]) {
                Some(v) => Ok(Some(v)),
                None => Err(()),
            }
        } else {
            Err(())
        }
    } else if response_status is Some {
        Ok(None)
    } else {
        Ok(Some(0))
    }
}

/// Decides the body length of a message from its fields and, where known,
/// the request it belongs to and the response header.
///
/// A Content-Length that is not a number gives `MalformedHeader` with a
/// number source; disagreeing Content-Length values give `MalformedHeader`
/// without a source.
#[verifier::loop_isolation(false)]
pub fn parse_content_length(
    fields: &HeaderMap,
    request: Option<&RequestHeader>,
    response: Option<&ResponseHeader>,
) -> (r: Result<Option<u64>, HTTPError>)
    ensures
        match spec_content_length(
            fields@,
            match request {
                Some(h) => Some(h@.request_line.method),
                None => None,
            },
            match response {
                Some(h) => Some(h@.status_line.status_code),
                None => None,
            },
        ) {
            Ok(v) => r == Ok::<Option<u64>, HTTPError>(v),
            Err(()) => r matches Err(HTTPError::MalformedHeader { .. }),
        },
        response matches Some(h) && ((100 <= h@.status_line.status_code < 200)
            || h@.status_line.status_code == 204 || h@.status_line.status_code == 304) ==> r == Ok::<
            Option<u64>,
            HTTPError,
        >(Some(0)),
{
    proof {
        reveal_strlit("content-length");
        reveal_strlit("HEAD");
        reveal_strlit("transfer-encoding");
    }
    if let Some(request) = request {
        if str_eq(request.request_line.method.as_str(), "HEAD") {
            return Ok(Some(0));
        }
    }
    if let Some(response) = response {
        let code = response.status_line.status_code;
        if (code >= 100 && code < 200) || code == 204 || code == 304 {
            return Ok(Some(0));
        }
    }
    if fields.contains_key("transfer-encoding") {
        assert(lower_chars("transfer-encoding"@) =~= "transfer-encoding"@);
        return Ok(None);
    }
    assert(lower_chars("transfer-encoding"@) =~= "transfer-encoding"@);
    let lengths = fields.get_comma_list("content-length");
    assert(lower_chars("content-length"@) =~= "content-length"@);
    let ghost lv = lengths@.map_values(|x: String| x@);
    if lengths.len() > 0 {
        let first = lengths[0].as_str();
        let mut i: usize = 0;
        while i < lengths.len()
            invariant
                0 <= i <= lengths@.len(),
                lengths@.len() > 0,
                lv == lengths@.map_values(|x: String| x@),
                first@ == lv[0],
                forall|j: int| 0 <= j < i ==> #[trigger] lv[j] == lv[0],
            decreases lengths@.len() - i,
        {
            if !str_eq(lengths[i].as_str(), first) {
                assert(lv[i as int] != lv[0]);
                return Err(HTTPError::MalformedHeader { source: None });
            }
            i = i + 1;
        }
        return match parse_u64(first) {
            Some(v) => Ok(Some(v)),
            None => Err(HTTPError::MalformedHeader { source: Some(ErrorSource::Number) }),
        };
    }
    if response.is_some() {
        Ok(None)
    } else {
        Ok(Some(0))
    }
}

/// Whether the body is in chunked transfer coding: as set, or, for `Auto`,
/// when a Transfer-Encoding field with a non-empty value is present.
///
/// When transfer-encoding is supplied, the sender must always use chunked
/// as the last encoding (RFC 9112 6.1), so "chunked" is not looked for.
pub fn is_chunked(option: ChunkedEncodingOption, fields: &HeaderMap) -> (r: bool)
    ensures
        r == match option {
            ChunkedEncodingOption::Off => false,
            ChunkedEncodingOption::On => true,
            ChunkedEncodingOption::Auto => match spec_get(fields@, "transfer-encoding"@) {
                Some(v) => v.text.len() > 0,
                None => false,
            },
        },
{
    match option {
        ChunkedEncodingOption::Off => false,
        ChunkedEncodingOption::On => true,
        ChunkedEncodingOption::Auto => {
            proof {
                reveal_strlit("transfer-encoding");
            }
            assert(lower_chars("transfer-encoding"@) =~= "transfer-encoding"@);
            match fields.get_str("transfer-encoding") {
                Some(text) => {
                    let chars = str_to_chars(text);
                    chars.len() > 0
                },
                None => false,
            }
        },
    }
}

/// The first known compression format among coding names, skipping
/// `identity` and `chunked`; `Raw` when there is none.
pub open spec fn first_format(names: Seq<Seq<char>>) -> CompressionFormat
    decreases names.len(),
{
    if names.len() == 0 {
        CompressionFormat::Raw
    } else if names[0] != "identity"@ && names[0] != "chunked"@ && format_for_name(names[0]) is Some {
        format_for_name(names[0])->0
    } else {
        first_format(names.drop_first())
    }
}

/// The compression format named by the Transfer-Encoding and then the
/// Content-Encoding fields.
pub open spec fn spec_format_from_headers(fields: Seq<FieldPairView>) -> CompressionFormat {
    first_format(
        spec_get_comma_list(fields, "transfer-encoding"@) + spec_get_comma_list(
            fields,
            "content-encoding"@,
        ),
    )
}

/// Returns the compression format named in the Transfer-Encoding and
/// Content-Encoding fields.
///
/// It is assumed that only one compression coding is given, in one of the
/// two fields; the first known one is taken.
#[verifier::loop_isolation(false)]
pub fn get_compression_format_from_headers(fields: &HeaderMap) -> (r: CompressionFormat)
    ensures
        r == spec_format_from_headers(fields@),
{
    proof {
        reveal_strlit("transfer-encoding");
        reveal_strlit("content-encoding");
    }
    let mut names = fields.get_comma_list("transfer-encoding");
    let more = fields.get_comma_list("content-encoding");
    assert(lower_chars("transfer-encoding"@) =~= "transfer-encoding"@);
    assert(lower_chars("content-encoding"@) =~= "content-encoding"@);
    let ghost all = names@.map_values(|x: String| x@) + more@.map_values(|x: String| x@);
    let mut i: usize = 0;
    while i < more.len()
        invariant
            0 <= i <= more@.len(),
            names@.map_values(|x: String| x@) + more@.map_values(|x: String| x@).skip(i as int)
                == all,
        decreases more@.len() - i,
    {
        let ghost before = names@.map_values(|x: String| x@);
        names.push(more[i].clone());
        assert(names@.map_values(|x: String| x@) =~= before.push(more@[i as int]@));
        assert(before + more@.map_values(|x: String| x@).skip(i as int) =~= before.push(
            more@[i as int]@,
        ) + more@.map_values(|x: String| x@).skip(i + 1));
        i = i + 1;
    }
    assert(names@.map_values(|x: String| x@) =~= all);
    assert(all.skip(0) =~= all);
    let mut j: usize = 0;
    while j < names.len()
        invariant
            0 <= j <= names@.len(),
            names@.map_values(|x: String| x@) == all,
            first_format(all) == first_format(all.skip(j as int)),
        decreases names@.len() - j,
    {
        let name = names[j].as_str();
        assert(all.skip(j as int).drop_first() =~= all.skip(j + 1));
        assert(all.skip(j as int)[0] == name@);
        if !str_eq(name, "identity") && !str_eq(name, "chunked") {
            if let Some(format) = CompressionFormat::from_name(name) {
                return format;
            }
        }
        j = j + 1;
    }
    CompressionFormat::Raw
}

/// Returns the compression format for a body: none, the one set, or, for
/// `Auto`, the one named in the header.
pub fn get_compression_format(option: CompressionOption, fields: &HeaderMap) -> (r:
    CompressionFormat)
    ensures
        r == match option {
            CompressionOption::Disabled => CompressionFormat::Raw,
            CompressionOption::Auto => spec_format_from_headers(fields@),
            CompressionOption::Manual(f) => f,
        },
{
    match option {
        CompressionOption::Disabled => CompressionFormat::Raw,
        CompressionOption::Auto => get_compression_format_from_headers(fields),
        CompressionOption::Manual(format) => format,
    }
}


/// The largest header, in bytes, that [MessageReader] reads.
pub const HEADER_LIMIT: u64 = 65536;

/// Where the header ends in the pending bytes `p` of a stream that fails at
/// the end when `fails`: just past the line that separates the fields and
/// message body, searched within the first `limit` bytes. `None` when the
/// header cannot be read.
pub open spec fn header_end(p: Seq<u8>, fails: bool, limit: nat) -> Option<nat> {
    let q = limited(p, limit);
    match boundary_end(q) {
        Some(n) => if fails && p.len() < limit && n == p.len() && p[n - 1] != 0x0A {
            None
        } else {
            Some(n)
        },
        None => None,
    }
}

/// Whether `p` starts with `HTTP/` in any letter case.
pub open spec fn starts_with_http_magic(p: Seq<u8>) -> bool {
    &&& p.len() >= 5
    &&& lower_byte(p[0]) == 0x68
    &&& lower_byte(p[1]) == 0x74
    &&& lower_byte(p[2]) == 0x74
    &&& lower_byte(p[3]) == 0x70
    &&& p[4] == 0x2F
}

/// How a message body is delimited in the stream.
#[derive(Debug, Clone, Copy, PartialEq, Eq, Structural)]
pub enum BodyFraming {
    /// Chunked transfer coding.
    Chunked,
    /// A known number of bytes.
    Length(u64),
    /// Everything up to the end of the stream.
    Legacy,
}

/// The framing of a body: chunked when so decided, else by its length when
/// it is known, else up to the end of the stream.
pub open spec fn spec_framing(chunked: bool, content_length: Option<u64>) -> BodyFraming {
    if chunked {
        BodyFraming::Chunked
    } else {
        match content_length {
            Some(n) => BodyFraming::Length(n),
            None => BodyFraming::Legacy,
        }
    }
}

/// The body bytes that the framing yields from the stream bytes `s`, and
/// whether reading then fails: a length-delimited body fails when the
/// stream has fewer bytes than announced.
pub open spec fn framed_body(f: BodyFraming, s: Seq<u8>, fails: bool) -> (Seq<u8>, bool) {
    match f {
        BodyFraming::Chunked => chunked_from_line(s, fails),
        BodyFraming::Length(n) => (limited(s, n as nat), s.len() < n),
        BodyFraming::Legacy => (s, fails),
    }
}

proof fn lemma_limited_skip_n(p: Seq<u8>, l: nat, n: nat)
    requires
        n <= limited(p, l).len(),
    ensures
        limited(p.skip(n as int), (l - n) as nat) == limited(p, l).skip(n as int),
        n <= p.len(),
        n <= l,
{
    if l <= p.len() {
        assert(p.skip(n as int).take(l - n) =~= p.take(l as int).skip(n as int));
    }
}

/// Reader of a body of a known length that fails when the stream ends
/// before that many bytes.
pub struct LengthReader<R: ByteBufRead> {
    stream: TakeReader<R>,
    current_length: u64,
    expected_length: u64,
}

impl<R: ByteBufRead> LengthReader<R> {
    /// The wrapped stream.
    pub closed spec fn spec_stream(&self) -> R {
        self.stream.spec_inner()
    }

    /// The number of body bytes not read yet.
    pub closed spec fn spec_remaining(&self) -> u64 {
        self.stream.spec_limit()
    }

    /// Creates a reader of a body of `length` bytes of `stream`.
    pub fn new(stream: R, length: u64) -> (r: Self)
        requires
            stream.inv(),
        ensures
            r.inv(),
            r.spec_stream() == stream,
            r.spec_remaining() == length,
            r.pending() == limited(stream.pending(), length as nat),
            r.fails() == (stream.pending().len() < length),
    {
        LengthReader { stream: TakeReader::new(stream, length), current_length: 0, expected_length: length }
    }

    /// Returns the wrapped stream.
    pub fn into_inner(self) -> (r: R)
        ensures
            r == self.spec_stream(),
    {
        self.stream.into_inner()
    }
}

impl<R: ByteBufRead> ByteRead for LengthReader<R> {
    closed spec fn inv(&self) -> bool {
        &&& self.stream.inv()
        &&& self.current_length + self.stream.spec_limit() == self.expected_length
    }

    closed spec fn pending(&self) -> Seq<u8> {
        limited(self.stream.spec_inner().pending(), self.stream.spec_limit() as nat)
    }

    closed spec fn fails(&self) -> bool {
        self.stream.spec_inner().pending().len() < self.stream.spec_limit()
    }

    closed spec fn reads_fully(&self) -> bool {
        false
    }

    proof fn lemma_pending_len(&self) {
        self.stream.spec_inner().lemma_pending_len();
    }

    fn read(&mut self, buf: &mut [u8]) -> (r: Result<usize, IoError>) {
        if buf.len() == 0 {
            assert(self.pending().skip(0) =~= self.pending());
            assert(buf@.take(0) =~= self.pending().take(0));
            return Ok(0);
        }
        let ghost p = self.stream.spec_inner().pending();
        let ghost l = self.stream.spec_limit();
        let amount = match self.stream.read(buf) {
            Ok(n) => n,
            Err(e) => {
                return Err(e);
            },
        };
        if amount == 0 && self.current_length != self.expected_length {
            assert(self.stream.spec_inner().pending() =~= p);
            return Err(IoError::new(IoErrorKind::UnexpectedEof));
        }
        proof {
            lemma_limited_skip_n(p, l as nat, amount as nat);
        }
        self.current_length = self.current_length + amount as u64;
        Ok(amount)
    }
}

/// The transfer layer of a body.
enum BodyTransportLayer<R: ByteBufRead> {
    Chunked(ChunkedReader<R>),
    Length(LengthReader<R>),
    Legacy(R),
}

impl<R: ByteBufRead> BodyTransportLayer<R> {
    /// The stream that the body is read from.
    closed spec fn spec_stream(&self) -> R {
        match *self {
            BodyTransportLayer::Chunked(c) => c.spec_stream(),
            BodyTransportLayer::Length(l) => l.spec_stream(),
            BodyTransportLayer::Legacy(s) => s,
        }
    }

    /// How the body is delimited; for a length, the bytes not read yet.
    closed spec fn spec_framing(&self) -> BodyFraming {
        match *self {
            BodyTransportLayer::Chunked(_) => BodyFraming::Chunked,
            BodyTransportLayer::Length(l) => BodyFraming::Length(l.spec_remaining()),
            BodyTransportLayer::Legacy(_) => BodyFraming::Legacy,
        }
    }

    fn into_inner(self) -> (r: R)
        ensures
            r == self.spec_stream(),
    {
        match self {
            BodyTransportLayer::Chunked(c) => c.into_inner(),
            BodyTransportLayer::Length(l) => l.into_inner(),
            BodyTransportLayer::Legacy(s) => s,
        }
    }
}

impl<R: ByteBufRead> ByteRead for BodyTransportLayer<R> {
    closed spec fn inv(&self) -> bool {
        match *self {
            BodyTransportLayer::Chunked(c) => c.inv(),
            BodyTransportLayer::Length(l) => l.inv(),
            BodyTransportLayer::Legacy(s) => s.inv(),
        }
    }

    closed spec fn pending(&self) -> Seq<u8> {
        match *self {
            BodyTransportLayer::Chunked(c) => c.pending(),
            BodyTransportLayer::Length(l) => l.pending(),
            BodyTransportLayer::Legacy(s) => s.pending(),
        }
    }

    closed spec fn fails(&self) -> bool {
        match *self {
            BodyTransportLayer::Chunked(c) => c.fails(),
            BodyTransportLayer::Length(l) => l.fails(),
            BodyTransportLayer::Legacy(s) => s.fails(),
        }
    }

    closed spec fn reads_fully(&self) -> bool {
        false
    }

    proof fn lemma_pending_len(&self) {
        match *self {
            BodyTransportLayer::Chunked(c) => c.lemma_pending_len(),
            BodyTransportLayer::Length(l) => l.lemma_pending_len(),
            BodyTransportLayer::Legacy(s) => s.lemma_pending_len(),
        }
    }

    fn read(&mut self, buf: &mut [u8]) -> (r: Result<usize, IoError>) {
        match self {
            BodyTransportLayer::Chunked(c) => c.read(buf),
            BodyTransportLayer::Length(l) => l.read(buf),
            BodyTransportLayer::Legacy(s) => s.read(buf),
        }
    }
}

/// The bytes that a body reader yields from stream bytes `s` for a framing
/// and a content coding, and whether reading then fails: the framed body,
/// decoded.
pub open spec fn body_bytes(f: BodyFraming, format: CompressionFormat, s: Seq<u8>, fails: bool) -> (Seq<u8>, bool) {
    let (b, bf) = framed_body(f, s, fails);
    decoded_stream(format, b, bf)
}

/// Reader for a message body, with the transfer coding and the content
/// coding removed.
pub struct BodyReader<R: ByteBufRead> {
    stream: Decompressor<BodyTransportLayer<R>>,
}

impl<R: ByteBufRead> BodyReader<R> {
    /// The stream that the body is read from.
    pub closed spec fn spec_stream(&self) -> R {
        self.stream.spec_source().spec_stream()
    }

    /// How the body is delimited; for a length, the bytes not read yet.
    pub closed spec fn spec_framing(&self) -> BodyFraming {
        self.stream.spec_source().spec_framing()
    }

    /// The content coding of the body.
    pub closed spec fn spec_compression_format(&self) -> CompressionFormat {
        self.stream.spec_format()
    }

    /// Creates a reader of a body of `stream` with the given framing and
    /// content coding.
    pub fn new(stream: R, framing: BodyFraming, compression_format: CompressionFormat) -> (r: Self)
        requires
            stream.inv(),
        ensures
            r.inv(),
            r.spec_stream() == stream,
            r.spec_framing() == framing,
            r.spec_compression_format() == compression_format,
            (r.pending(), r.fails()) == body_bytes(
                framing,
                compression_format,
                stream.pending(),
                stream.fails(),
            ),
    {
        let layer = match framing {
            BodyFraming::Chunked => BodyTransportLayer::Chunked(ChunkedReader::new(stream)),
            BodyFraming::Length(n) => BodyTransportLayer::Length(LengthReader::new(stream, n)),
            BodyFraming::Legacy => BodyTransportLayer::Legacy(stream),
        };
        BodyReader { stream: Decompressor::with_format(layer, compression_format) }
    }

    /// Returns the content coding that the reader removes from the body.
    pub fn compression_format(&self) -> (r: CompressionFormat)
        ensures
            r == self.spec_compression_format(),
    {
        self.stream.format()
    }

    /// Returns the stream that the body is read from.
    pub fn into_inner(self) -> (r: R)
        ensures
            r == self.spec_stream(),
    {
        self.stream.into_inner().into_inner()
    }
}

impl<R: ByteBufRead> ByteRead for BodyReader<R> {
    closed spec fn inv(&self) -> bool {
        self.stream.inv()
    }

    closed spec fn pending(&self) -> Seq<u8> {
        self.stream.pending()
    }

    closed spec fn fails(&self) -> bool {
        self.stream.fails()
    }

    closed spec fn reads_fully(&self) -> bool {
        false
    }

    proof fn lemma_pending_len(&self) {
        self.stream.lemma_pending_len();
    }

    fn read(&mut self, buf: &mut [u8]) -> (r: Result<usize, IoError>) {
        self.stream.read(buf)
    }
}


/// HTTP request and response reader.
///
/// A message is read in order: [MessageReader::begin_request] or
/// [MessageReader::begin_response] reads the header, [MessageReader::read_body]
/// gives the body and [MessageReader::end_message] finishes the message.
pub struct MessageReader<R: ByteBufRead + PeekRead> {
    stream: Option<R>,
    body_reader: Option<BodyReader<R>>,
    chunked_encoding: ChunkedEncodingOption,
    compression: CompressionOption,
    buffer: Vec<u8>,
    content_length: Option<u64>,
}

impl<R: ByteBufRead + PeekRead> MessageReader<R> {
    /// Whether the reader is consistent.
    pub closed spec fn wf(&self) -> bool {
        match self.stream {
            Some(s) => self.body_reader is None && s.inv(),
            None => self.body_reader matches Some(b) && b.inv(),
        }
    }

    /// Whether a header has been read and the body is next.
    pub closed spec fn spec_in_body(&self) -> bool {
        self.stream is None
    }

    /// The stream, while no body is being read.
    pub closed spec fn spec_stream(&self) -> R {
        self.stream->0
    }

    /// The body reader, while a body is being read.
    pub closed spec fn spec_body(&self) -> BodyReader<R> {
        self.body_reader->0
    }

    /// The chunked transfer coding option.
    pub closed spec fn spec_chunked_encoding(&self) -> ChunkedEncodingOption {
        self.chunked_encoding
    }

    /// The compression option.
    pub closed spec fn spec_compression(&self) -> CompressionOption {
        self.compression
    }

    /// The body length of the message being read, where known.
    pub closed spec fn spec_content_length(&self) -> Option<u64> {
        self.content_length
    }

    /// Creates a new MessageReader with the given stream.
    pub fn new(stream: R) -> (r: Self)
        requires
            stream.inv(),
        ensures
            r.wf(),
            !r.spec_in_body(),
            r.spec_stream() == stream,
            r.spec_chunked_encoding() == ChunkedEncodingOption::Auto,
            r.spec_compression() == CompressionOption::Auto,
    {
        Self {
            stream: Some(stream),
            body_reader: None,
            chunked_encoding: ChunkedEncodingOption::Auto,
            compression: CompressionOption::Auto,
            buffer: Vec::new(),
            content_length: None,
        }
    }

    /// Returns the chunked transfer coding option.
    pub fn chunked_encoding(&self) -> (r: ChunkedEncodingOption)
        ensures
            r == self.spec_chunked_encoding(),
    {
        self.chunked_encoding
    }

    /// Sets the chunked transfer coding option.
    pub fn set_chunked_encoding(&mut self, chunked_encoding: ChunkedEncodingOption)
        ensures
            final(self).spec_chunked_encoding() == chunked_encoding,
            final(self).spec_compression() == old(self).spec_compression(),
            final(self).wf() == old(self).wf(),
            final(self).spec_in_body() == old(self).spec_in_body(),
            final(self).spec_stream() == old(self).spec_stream(),
            final(self).spec_body() == old(self).spec_body(),
    {
        self.chunked_encoding = chunked_encoding;
    }

    /// Returns the compression option for content-encoding/transfer-encoding.
    pub fn compression(&self) -> (r: CompressionOption)
        ensures
            r == self.spec_compression(),
    {
        self.compression
    }

    /// Sets the compression option for content-encoding/transfer-encoding.
    ///
    /// Only one compression method is supported.
    pub fn set_compression(&mut self, compression: CompressionOption)
        ensures
            final(self).spec_compression() == compression,
            final(self).spec_chunked_encoding() == old(self).spec_chunked_encoding(),
            final(self).wf() == old(self).wf(),
            final(self).spec_in_body() == old(self).spec_in_body(),
            final(self).spec_stream() == old(self).spec_stream(),
            final(self).spec_body() == old(self).spec_body(),
    {
        self.compression = compression;
    }

    /// Reads the header bytes into the buffer.
    fn read_header(&mut self) -> (r: Result<(), HTTPError>)
        requires
            old(self).wf(),
            !old(self).spec_in_body(),
        ensures
            final(self).wf(),
            !final(self).spec_in_body(),
            final(self).chunked_encoding == old(self).chunked_encoding,
            final(self).compression == old(self).compression,
            ({
                let s = old(self).spec_stream();
                match header_end(s.pending(), s.fails(), HEADER_LIMIT as nat) {
                    None => r matches Err(HTTPError::Io(_)),
                    Some(n) => {
                        &&& r is Ok
                        &&& final(self).buffer@ == s.pending().take(n as int)
                        &&& final(self).spec_stream().pending() == s.pending().skip(n as int)
                        &&& final(self).spec_stream().fails() == s.fails()
                    },
                }
            }),
    {
        self.buffer.clear();
        let stream = self.stream.as_mut().unwrap();
        match read_until_boundary(stream, &mut self.buffer, HEADER_LIMIT) {
            Ok(_) => {
                proof {
                    let p = old(self).spec_stream().pending();
                    let q = limited(p, HEADER_LIMIT as nat);
                    lemma_boundary_end_bounds(q);
                    if let Some(n) = boundary_end(q) {
                        assert(q.take(n as int) =~= p.take(n as int));
                    }
                }
                Ok(())
            },
            Err(e) => Err(HTTPError::Io(e)),
        }
    }

    /// Sets up the body reader for a message with the given fields and body length.
    fn set_up_body_common(&mut self, fields: &HeaderMap, content_length: Option<u64>)
        requires
            old(self).wf(),
            !old(self).spec_in_body(),
        ensures
            final(self).wf(),
            final(self).spec_in_body(),
            final(self).chunked_encoding == old(self).chunked_encoding,
            final(self).compression == old(self).compression,
            final(self).content_length == content_length,
            ({
                let s = old(self).spec_stream();
                let f = spec_framing(is_chunked_spec(old(self).chunked_encoding, fields@), content_length);
                &&& final(self).spec_body().spec_stream() == s
                &&& final(self).spec_body().spec_framing() == f
                &&& final(self).spec_body().spec_compression_format() == compression_format_spec(
                    old(self).compression,
                    fields@,
                )
                &&& (final(self).spec_body().pending(), final(self).spec_body().fails())
                    == body_bytes(
                    f,
                    compression_format_spec(old(self).compression, fields@),
                    s.pending(),
                    s.fails(),
                )
            }),
    {
        let stream = self.stream.take().unwrap();
        let chunked = is_chunked(self.chunked_encoding, fields);
        let framing = if chunked {
            BodyFraming::Chunked
        } else {
            match content_length {
                Some(n) => BodyFraming::Length(n),
                None => BodyFraming::Legacy,
            }
        };
        let format = get_compression_format(self.compression, fields);
        self.content_length = content_length;
        self.body_reader = Some(BodyReader::new(stream, framing, format));
    }

    /// Begins reading a HTTP request and returns the header.
    ///
    /// [Self::read_body] must be called next to advance stream. The header,
    /// up to and including the line that ends it, may be at most
    /// [HEADER_LIMIT] bytes. On an error the reader stays before a header.
    pub fn begin_request(&mut self) -> (r: Result<RequestHeader, HTTPError>)
        requires
            old(self).wf(),
            !old(self).spec_in_body(),
        ensures
            final(self).wf(),
            final(self).spec_chunked_encoding() == old(self).spec_chunked_encoding(),
            final(self).spec_compression() == old(self).spec_compression(),
            r is Err ==> !final(self).spec_in_body(),
            ({
                let s = old(self).spec_stream();
                match header_end(s.pending(), s.fails(), HEADER_LIMIT as nat) {
                    None => r matches Err(HTTPError::Io(_)),
                    Some(n) => match spec_parse_request_header(
                        spec_trim_trailing_crlf(s.pending().take(n as int)),
                    ) {
                        Err(e) => is_header_error(r, e),
                        Ok(h) => match spec_content_length(
                            h.fields,
                            Some(h.request_line.method),
                            None,
                        ) {
                            Err(()) => r matches Err(HTTPError::MalformedHeader { .. }),
                            Ok(len) => {
                                &&& r matches Ok(header) && header@ == h
                                &&& final(self).spec_in_body()
                                &&& final(self).spec_content_length() == len
                                &&& body_set_up(
                                    final(self).spec_body(),
                                    old(self).spec_chunked_encoding(),
                                    old(self).spec_compression(),
                                    h.fields,
                                    len,
                                    s.pending().skip(n as int),
                                    s.fails(),
                                )
                            },
                        },
                    },
                }
            }),
    {
        self.read_header()?;
        let buf = trim_trailing_crlf(self.buffer.as_slice());
        if buf.len() == 0 {
            assert(buf@.take(line_len(buf@) as int) =~= buf@);
            return match RequestLine::parse_from(buf) {
                Ok(_) => Err(HTTPError::InvalidStartLine { source: None }),
                Err(e) => Err(e),
            };
        }
        let header = RequestHeader::parse_from(buf)?;
        let content_length = parse_content_length(&header.fields, Some(&header), None)?;
        self.set_up_body_common(&header.fields, content_length);
        Ok(header)
    }

    /// Returns whether the stream starts with `HTTP/`, peeking at it.
    fn check_http_response_magic_bytes(&mut self) -> (r: bool)
        requires
            old(self).wf(),
            !old(self).spec_in_body(),
        ensures
            final(self).wf(),
            !final(self).spec_in_body(),
            final(self).chunked_encoding == old(self).chunked_encoding,
            final(self).compression == old(self).compression,
            final(self).spec_stream().pending() == old(self).spec_stream().pending(),
            final(self).spec_stream().fails() == old(self).spec_stream().fails(),
            r == starts_with_http_magic(old(self).spec_stream().pending()),
    {
        let stream = self.stream.as_mut().unwrap();
        match stream.peek_exact(5) {
            Ok(data) => {
                if data.len() < 5 {
                    return false;
                }
                to_lower_byte(data[0]) == 0x68 && to_lower_byte(data[1]) == 0x74 && to_lower_byte(
                    data[2],
                ) == 0x74 && to_lower_byte(data[3]) == 0x70 && data[4] == 0x2F
            },
            Err(_) => false,
        }
    }

    /// Begins reading a HTTP response and returns the header.
    ///
    /// For additional validation, supply the request header to `initiator`.
    /// A stream that does not start with `HTTP/` is read as an HTTP/0.9
    /// response, which has no header on the wire. The header is parsed with
    /// the line that ends it, which [ResponseHeader::parse_from] removes.
    ///
    /// [Self::read_body] must be called next to advance stream. On an error
    /// the reader stays before a header.
    pub fn begin_response(&mut self, initiator: Option<&RequestHeader>) -> (r: Result<
        ResponseHeader,
        HTTPError,
    >)
        requires
            old(self).wf(),
            !old(self).spec_in_body(),
        ensures
            final(self).wf(),
            final(self).spec_chunked_encoding() == old(self).spec_chunked_encoding(),
            final(self).spec_compression() == old(self).spec_compression(),
            r is Err ==> !final(self).spec_in_body(),
            ({
                let s = old(self).spec_stream();
                let method = match initiator {
                    Some(h) => Some(h@.request_line.method),
                    None => None,
                };
                if !starts_with_http_magic(s.pending()) {
                    let h = response_09_view();
                    match spec_content_length(h.fields, method, Some(h.status_line.status_code)) {
                        Err(()) => r is Err,
                        Ok(len) => {
                            &&& r matches Ok(header) && header@ == h
                            &&& final(self).spec_in_body()
                            &&& final(self).spec_content_length() == len
                            &&& body_set_up(
                                final(self).spec_body(),
                                old(self).spec_chunked_encoding(),
                                old(self).spec_compression(),
                                h.fields,
                                len,
                                s.pending(),
                                s.fails(),
                            )
                        },
                    }
                } else {
                    match header_end(s.pending(), s.fails(), HEADER_LIMIT as nat) {
                        None => r matches Err(HTTPError::Io(_)),
                        Some(n) => match spec_parse_response_header(s.pending().take(n as int)) {
                            Err(e) => is_header_error(r, e),
                            Ok(h) => match spec_content_length(
                                h.fields,
                                method,
                                Some(h.status_line.status_code),
                            ) {
                                Err(()) => r matches Err(HTTPError::MalformedHeader { .. }),
                                Ok(len) => {
                                    &&& r matches Ok(header) && header@ == h
                                    &&& final(self).spec_in_body()
                                    &&& final(self).spec_content_length() == len
                                    &&& body_set_up(
                                        final(self).spec_body(),
                                        old(self).spec_chunked_encoding(),
                                        old(self).spec_compression(),
                                        h.fields,
                                        len,
                                        s.pending().skip(n as int),
                                        s.fails(),
                                    )
                                },
                            },
                        },
                    }
                }
            }),
    {
        let header = if self.check_http_response_magic_bytes() {
            self.read_header()?;
            proof {
                let p = old(self).spec_stream().pending();
                lemma_boundary_end_bounds(limited(p, HEADER_LIMIT as nat));
            }
            ResponseHeader::parse_from(self.buffer.as_slice())?
        } else {
            let h = ResponseHeader::new_09();
            assert(h@.fields =~= Seq::<FieldPairView>::empty());
            h
        };
        let content_length = parse_content_length(&header.fields, initiator, Some(&header))?;
        self.set_up_body_common(&header.fields, content_length);
        Ok(header)
    }

    /// Returns a reader for reading the message body.
    ///
    /// Once the message body reaches EOF, [Self::end_message] must be called
    /// to finished reading the body.
    pub fn read_body(&mut self) -> (r: &mut BodyReader<R>)
        requires
            old(self).wf(),
            old(self).spec_in_body(),
        ensures
            *r == old(self).spec_body(),
            final(self).spec_body() == *final(r),
            final(self).spec_in_body(),
            final(self).spec_chunked_encoding() == old(self).spec_chunked_encoding(),
            final(self).spec_compression() == old(self).spec_compression(),
            final(self).spec_content_length() == old(self).spec_content_length(),
            final(r).inv() ==> final(self).wf(),
    {
        self.body_reader.as_mut().unwrap()
    }

    /// Finishes reading the message.
    ///
    /// [Self::begin_request] or [Self::begin_response] may be called next if
    /// the protocol allows it.
    pub fn end_message(&mut self) -> (r: Result<(), HTTPError>)
        requires
            old(self).wf(),
            old(self).spec_in_body(),
            old(self).spec_body().spec_stream().inv(),
        ensures
            r is Ok,
            final(self).wf(),
            !final(self).spec_in_body(),
            final(self).spec_stream() == old(self).spec_body().spec_stream(),
            final(self).spec_chunked_encoding() == old(self).spec_chunked_encoding(),
            final(self).spec_compression() == old(self).spec_compression(),
    {
        let body = self.body_reader.take().unwrap();
        self.stream = Some(body.into_inner());
        Ok(())
    }
}

/// Whether `is_chunked` decides on chunked transfer coding for the option and fields.
pub open spec fn is_chunked_spec(option: ChunkedEncodingOption, fields: Seq<FieldPairView>) -> bool {
    match option {
        ChunkedEncodingOption::Off => false,
        ChunkedEncodingOption::On => true,
        ChunkedEncodingOption::Auto => match spec_get(fields, "transfer-encoding"@) {
            Some(v) => v.text.len() > 0,
            None => false,
        },
    }
}

/// The content coding that `get_compression_format` decides on.
pub open spec fn compression_format_spec(option: CompressionOption, fields: Seq<FieldPairView>) -> CompressionFormat {
    match option {
        CompressionOption::Disabled => CompressionFormat::Raw,
        CompressionOption::Auto => spec_format_from_headers(fields),
        CompressionOption::Manual(f) => f,
    }
}

/// Whether `body` reads the body that follows a header with `fields` in a
/// stream with the bytes `s`.
pub open spec fn body_set_up<R: ByteBufRead>(
    body: BodyReader<R>,
    chunked_encoding: ChunkedEncodingOption,
    compression: CompressionOption,
    fields: Seq<FieldPairView>,
    content_length: Option<u64>,
    s: Seq<u8>,
    fails: bool,
) -> bool {
    let f = spec_framing(is_chunked_spec(chunked_encoding, fields), content_length);
    &&& body.spec_stream().pending() == s
    &&& body.spec_stream().fails() == fails
    &&& body.spec_framing() == f
    &&& body.spec_compression_format() == compression_format_spec(compression, fields)
    &&& (body.pending(), body.fails()) == body_bytes(
        f,
        compression_format_spec(compression, fields),
        s,
        fails,
    )
}

/// The header of an HTTP/0.9 response.
pub open spec fn response_09_view() -> ResponseHeaderView {
    ResponseHeaderView {
        status_line: super::StatusLineView {
            version: (0, 9),
            status_code: 200,
            reason_phrase: Seq::<char>::empty(),
        },
        fields: Seq::<FieldPairView>::empty(),
    }
}

/// A response whose status is informational (1xx), 204 No Content or 304
/// Not Modified has no body, whatever its fields say (RFC 9112 6.3); so has
/// the response to a HEAD request.
pub proof fn law_bodiless_responses(
    fields: Seq<FieldPairView>,
    request_method: Option<Seq<char>>,
    status: u16,
)
    ensures
        (100 <= status < 200 || status == 204 || status == 304) ==> spec_content_length(
            fields,
            request_method,
            Some(status),
        ) == Ok::<Option<u64>, ()>(Some(0)),
        request_method == Some("HEAD"@) ==> spec_content_length(fields, request_method, Some(status))
            == Ok::<Option<u64>, ()>(Some(0)),
{
}

/// A response without Content-Length and Transfer-Encoding whose status
/// allows a body is read to the end of the stream; a request without them
/// has no body.
pub proof fn law_unframed_bodies(fields: Seq<FieldPairView>, status: u16)
    requires
        spec_get(fields, "transfer-encoding"@) is None,
        spec_get_comma_list(fields, "content-length"@).len() == 0,
    ensures
        !(100 <= status < 200 || status == 204 || status == 304) ==> spec_content_length(
            fields,
            None,
            Some(status),
        ) == Ok::<Option<u64>, ()>(None),
        spec_content_length(fields, None, None) == Ok::<Option<u64>, ()>(Some(0)),
{
}

/// The format chosen from coding names is the one named by the first name
/// that is known, other than `identity` and `chunked`.
pub proof fn law_first_known_coding(names: Seq<Seq<char>>, i: int)
    requires
        0 <= i < names.len(),
        names[i] != "identity"@,
        names[i] != "chunked"@,
        format_for_name(names[i]) is Some,
        forall|j: int|
            0 <= j < i ==> #[trigger] names[j] == "identity"@ || names[j] == "chunked"@
                || format_for_name(names[j]) is None,
    ensures
        Some(first_format(names)) == format_for_name(names[i]),
    decreases i,
{
    if i > 0 {
        assert(names[0] == "identity"@ || names[0] == "chunked"@ || format_for_name(names[0]) is None);
        assert forall|j: int| 0 <= j < i - 1 implies #[trigger] names.drop_first()[j] == "identity"@
            || names.drop_first()[j] == "chunked"@ || format_for_name(names.drop_first()[j]) is None by {
            assert(names.drop_first()[j] == names[j + 1]);
        }
        law_first_known_coding(names.drop_first(), i - 1);
    }
}

/// With no known coding name, other than `identity` and `chunked`, the body
/// is left as it is.
pub proof fn law_no_known_coding(names: Seq<Seq<char>>)
    requires
        forall|j: int|
            0 <= j < names.len() ==> #[trigger] names[j] == "identity"@ || names[j] == "chunked"@
                || format_for_name(names[j]) is None,
    ensures
        first_format(names) == CompressionFormat::Raw,
    decreases names.len(),
{
    if names.len() > 0 {
        assert(names[0] == "identity"@ || names[0] == "chunked"@ || format_for_name(names[0]) is None);
        assert forall|j: int| 0 <= j < names.len() - 1 implies #[trigger] names.drop_first()[j]
            == "identity"@ || names.drop_first()[j] == "chunked"@ || format_for_name(
            names.drop_first()[j],
        ) is None by {
            assert(names.drop_first()[j] == names[j + 1]);
        }
        law_no_known_coding(names.drop_first());
    }
}

} // verus!
