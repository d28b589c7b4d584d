//! Earlier forms of the HTTP message headers.
//!
//! Here a request line is written without its line ending, and the request
//! header ends with the CRLF that separates the fields and message body; a
//! trailing line ending is ignored when parsing.
use vstd::prelude::*;

pub use super::request::{url_to_request_target, RequestTarget};
pub use super::response::{ResponseHeader, StatusLine};

use super::request::{
    fields_written, format_fields, is_header_error, message_formatter, method_ok,
    push_request_line, spec_parse_request_line, spec_request_line_bytes, spec_request_line_text,
    RequestHeaderError, RequestHeaderView, RequestLineView,
};
use super::response::all_fields_ok;
use super::util::cut_start_line;
use super::{is_start_line_error_at, ErrorSource, HTTPError, Version, DEFAULT_VERSION};
use crate::header::{
    all_token, line_len, spec_formatted, spec_map_text, spec_parse_header, spec_trim_trailing_crlf,
    trim_trailing_crlf, HeaderMap, HeaderParser,
};
use crate::stringutil::{string_push, string_push_str};

verus! {

/// Represents a start line for a request.
#[derive(Debug)]
pub struct RequestLine {
    /// Method name such as "GET" or "POST".
    pub method: String,
    /// The request-target.
    pub target: String,
    /// HTTP version.
    pub version: Version,
}

impl View for RequestLine {
    type V = RequestLineView;

    open spec fn view(&self) -> RequestLineView {
        RequestLineView { method: self.method@, target: self.target@, version: self.version }
    }
}

impl RequestLine {
    /// Creates a `RequestLine` with the given values and default version.
    pub fn new(method: String, target: String) -> (r: Self)
        ensures
            r@ == (RequestLineView { method: method@, target: target@, version: (1, 1) }),
    {
        Self { method, target, version: DEFAULT_VERSION }
    }

    /// Parses a request line; the input includes its line ending.
    pub fn parse_from(input: &[u8]) -> (r: Result<Self, HTTPError>)
        ensures
            match spec_parse_request_line(input@) {
                Ok(v) => r matches Ok(l) && l@ == v,
                Err(p) => is_start_line_error_at(r, input@, p),
            },
    {
        let line = super::request::RequestLine::parse_from(input)?;
        Ok(Self { method: line.method, target: line.target, version: line.version })
    }

    /// Writes the request line, without its line ending, to `dest`.
    ///
    /// The method must consist of token characters; otherwise nothing is
    /// written and the error is `InvalidStartLine` without a source.
    pub fn format(&self, dest: &mut Vec<u8>) -> (r: Result<(), HTTPError>)
        ensures
            method_ok(self@) ==> r is Ok && final(dest)@ == old(dest)@ + spec_request_line_bytes(
                self@,
            ),
            !method_ok(self@) ==> (r matches Err(HTTPError::InvalidStartLine { source: None })
                && final(dest)@ == old(dest)@),
    {
        let bytes = self.method.as_str().as_bytes();
        assert(bytes@ == vstd::utf8::encode_utf8(self@.method));
        if !all_token(bytes) {
            return Err(HTTPError::InvalidStartLine { source: None });
        }
        let line = super::request::RequestLine {
            method: self.method.clone(),
            target: self.target.clone(),
            version: self.version,
        };
        push_request_line(&line, dest);
        Ok(())
    }

    /// Returns the request line as text, with invalid method characters replaced.
    pub fn to_text_lossy(&self) -> (r: String)
        ensures
            r@ == spec_request_line_text(self@),
    {
        let line = super::request::RequestLine {
            method: self.method.clone(),
            target: self.target.clone(),
            version: self.version,
        };
        line.to_text_lossy()
    }
}

/// Represents the complete HTTP request header.
#[derive(Debug)]
pub struct RequestHeader {
    /// Request line.
    pub request_line: RequestLine,
    /// Name-value fields.
    pub fields: HeaderMap,
}

impl View for RequestHeader {
    type V = RequestHeaderView;

    open spec fn view(&self) -> RequestHeaderView {
        RequestHeaderView { request_line: self.request_line@, fields: self.fields@ }
    }
}

/// The request header read from `buf`: the first line is the request line,
/// the rest, without one trailing line ending, the fields.
pub open spec fn spec_parse_request_header(buf: Seq<u8>) -> Result<
    RequestHeaderView,
    RequestHeaderError,
> {
    let l = line_len(buf);
    match spec_parse_request_line(buf.take(l as int)) {
        Err(p) => Err(RequestHeaderError::StartLine(buf.take(l as int), p)),
        Ok(line) => match spec_parse_header(spec_trim_trailing_crlf(buf.skip(l as int))) {
            Ok(fields) => Ok(RequestHeaderView { request_line: line, fields }),
            Err(e) => Err(RequestHeaderError::Fields(e)),
        },
    }
}

impl RequestHeader {
    /// Creates a `RequestHeader` with the given values, default version, and empty fields.
    pub fn new(method: &str, target: &str) -> (r: Self)
        ensures
            r@.request_line == (RequestLineView { method: method@, target: target@, version: (1, 1) }),
            r@.fields.len() == 0,
    {
        Self {
            request_line: RequestLine::new(method.to_owned(), target.to_owned()),
            fields: HeaderMap::new(),
        }
    }

    /// Parses bytes into a new `RequestHeader`; one line ending after the
    /// fields is ignored.
    pub fn parse_from(buf: &[u8]) -> (r: Result<Self, HTTPError>)
        requires
            buf@.len() > 0,
        ensures
            match spec_parse_request_header(buf@) {
                Ok(v) => r matches Ok(h) && h@ == v,
                Err(e) => is_header_error(r, e),
            },
    {
        let (line, remain) = cut_start_line(buf);
        let request_line = RequestLine::parse_from(line)?;
        let field_buf = trim_trailing_crlf(remain);
        let field_parser = HeaderParser::new();
        match field_parser.parse_header(field_buf) {
            Ok(fields) => Ok(Self { request_line, fields }),
            Err(error) => Err(HTTPError::MalformedHeader { source: Some(ErrorSource::Parse(error)) }),
        }
    }

    /// Formats the header suitable network data exchange: the request line,
    /// CRLF, the fields, and the CRLF that ends the header.
    pub fn format(&self, dest: &mut Vec<u8>) -> (r: Result<(), HTTPError>)
        ensures
            !method_ok(self@.request_line) ==> (r matches Err(
                HTTPError::InvalidStartLine { source: None },
            ) && final(dest)@ == old(dest)@),
            method_ok(self@.request_line) && all_fields_ok(self@.fields) ==> {
                &&& r is Ok
                &&& final(dest)@ == old(dest)@ + spec_request_line_bytes(self@.request_line)
                    + seq![0x0Du8, 0x0Au8] + spec_formatted(message_formatter(), self@.fields)
                    + seq![0x0Du8, 0x0Au8]
            },
            method_ok(self@.request_line) && !all_fields_ok(self@.fields) ==> fields_written(
                self@.fields,
                r,
                old(dest)@ + spec_request_line_bytes(self@.request_line) + seq![0x0Du8, 0x0Au8],
                final(dest)@,
            ),
    {
        self.request_line.format(dest)?;
        dest.push(0x0D);
        dest.push(0x0A);
        assert(dest@ =~= old(dest)@ + spec_request_line_bytes(self@.request_line) + seq![0x0Du8, 0x0Au8]);
        let written = format_fields(&self.fields, dest);
        if written.is_err() {
            return written;
        }
        dest.push(0x0D);
        dest.push(0x0A);
        Ok(())
    }

    /// Returns the header as text: the request line, the fields, and CRLF.
    ///
    /// Invalid characters are replaced; this is intended for debugging purposes.
    pub fn to_string(&self) -> (r: String)
        ensures
            r@ == spec_request_line_text(self@.request_line) + spec_map_text(self@.fields) + seq![
                '\r',
                '\n',
            ],
    {
        let mut out = self.request_line.to_text_lossy();
        let fields = self.fields.to_string();
        string_push_str(&mut out, fields.as_str());
        string_push(&mut out, '\r');
        string_push(&mut out, '\n');
        out
    }
}

} // verus!
