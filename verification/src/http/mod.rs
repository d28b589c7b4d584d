//! HTTP parsing, formatting and transfer codings.
pub mod chunked;
pub mod coding;
pub mod field;
pub mod header;
pub mod pc;
pub mod reader;
mod request;
mod response;
pub mod util;
pub mod writer;

pub use request::{
    fields_written, is_header_error, message_formatter, method_ok, spec_parse_request_header,
    spec_parse_request_line, spec_request_line_bytes, spec_request_line_text, spec_version_bytes,
    RequestHeader, RequestHeaderError, RequestHeaderView, RequestLine, RequestLineView,
    RequestTarget, spec_request_target, url_to_request_target,
};
pub use response::{
    all_fields_ok, reason_lossy_char, reason_ok, spec_parse_response_header, spec_parse_status_line,
    spec_status_line_bytes, spec_status_line_text, spec_status_prefix, ResponseHeader,
    ResponseHeaderView, StatusLine, StatusLineView,
};

use vstd::prelude::*;

use crate::compress::CompressionFormat;
use crate::error::ParseError;
use crate::header::FormatError;
use crate::io::IoError;

verus! {

/// HTTP version in major decimal minor format.
pub type Version = (u16, u16);

/// Default HTTP version.
pub const DEFAULT_VERSION: Version = (1, 1);

/// Specifies what compression method to use.
#[derive(Debug, Clone, Copy, PartialEq, Eq, Structural)]
pub enum CompressionOption {
    /// Don't use any compression.
    Disabled,
    /// Detect compression from headers.
    Auto,
    /// Use specified compression format.
    Manual(CompressionFormat),
}

impl Default for CompressionOption {
    fn default() -> (r: Self)
        ensures
            r == CompressionOption::Auto,
    {
        CompressionOption::Auto
    }
}

/// Specifies the use of chunked transfer coding.
#[derive(Debug, Clone, Copy, PartialEq, Eq, Structural)]
pub enum ChunkedEncodingOption {
    /// Do not use.
    Off,
    /// Always use.
    On,
    /// Detect from headers.
    Auto,
}

impl Default for ChunkedEncodingOption {
    fn default() -> (r: Self)
        ensures
            r == ChunkedEncodingOption::Auto,
    {
        ChunkedEncodingOption::Auto
    }
}

/// The lower-level error behind an [HTTPError].
#[derive(Debug)]
pub enum ErrorSource {
    /// Malformed data, with the position where parsing stopped.
    Parse(ParseError),
    /// A header field that cannot be formatted.
    Format(FormatError),
    /// A number that cannot be parsed.
    Number,
}

/// Errors during HTTP parsing, formatting, or processing protocol state.
#[derive(Debug)]
pub enum HTTPError {
    /// Unexpected end of data.
    UnexpectedEnd,
    /// Invalid or malformed start line (request line or status line).
    InvalidStartLine {
        /// Source of the error.
        source: Option<ErrorSource>,
    },
    /// Header couldn't be parsed or formatted.
    MalformedHeader {
        /// Source of the error.
        source: Option<ErrorSource>,
    },
    /// Invalid or malformed sequence in content encoding or transfer coding.
    InvalidEncoding {
        /// Source of the error.
        source: Option<ErrorSource>,
    },
    /// Feature or condition is not supported by this crate.
    NotSupported {
        /// Source of the error.
        source: Option<ErrorSource>,
    },
    /// IO error.
    Io(IoError),
}

impl HTTPError {
    /// Returns a short description of the error.
    pub fn message(&self) -> (r: &'static str)
        ensures
            r@ == spec_http_error_message(*self),
    {
        match self {
            HTTPError::UnexpectedEnd => "unexpected end of data",
            HTTPError::InvalidStartLine { .. } => "invalid start line",
            HTTPError::MalformedHeader { .. } => "malformed header",
            HTTPError::InvalidEncoding { .. } => "invalid encoding",
            HTTPError::NotSupported { .. } => "not supported",
            HTTPError::Io(_) => "IO error",
        }
    }
}

/// The short description of an error.
pub open spec fn spec_http_error_message(e: HTTPError) -> Seq<char> {
    match e {
        HTTPError::UnexpectedEnd => "unexpected end of data"@,
        HTTPError::InvalidStartLine { .. } => "invalid start line"@,
        HTTPError::MalformedHeader { .. } => "malformed header"@,
        HTTPError::InvalidEncoding { .. } => "invalid encoding"@,
        HTTPError::NotSupported { .. } => "not supported"@,
        HTTPError::Io(_) => "IO error"@,
    }
}

/// Whether `r` is an invalid start line error caused by a parse failure at
/// `offset` of `input`.
pub open spec fn is_start_line_error_at<T>(r: Result<T, HTTPError>, input: Seq<u8>, offset: nat) -> bool {
    r matches Err(HTTPError::InvalidStartLine { source: Some(ErrorSource::Parse(e)) })
        && e@ == crate::error::spec_error_at(input, offset as int)
}

} // verus!
