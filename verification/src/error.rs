//! Errors related to this crate.
use vstd::prelude::*;

use crate::http::HTTPError;
use crate::io::IoError;

verus! {

/// Error during parsing indicating malformed or invalid character sequences.
#[derive(Debug)]
pub struct ParseError {
    offset: u64,
    input: Vec<u8>,
}

/// Abstract contents of a [ParseError].
pub struct ParseErrorView {
    /// Offset where the error occurred in the input.
    pub offset: u64,
    /// A segment of the input near where the error occurred.
    pub input: Seq<u8>,
}

impl View for ParseError {
    type V = ParseErrorView;

    closed spec fn view(&self) -> ParseErrorView {
        ParseErrorView { offset: self.offset, input: self.input@ }
    }
}

/// The segment of `input` shown with an error at `offset`: up to 8 bytes on each side.
pub open spec fn error_window(input: Seq<u8>, offset: int) -> Seq<u8> {
    let lo = if offset - 8 > 0 {
        offset - 8
    } else {
        0
    };
    let hi = if offset + 8 < input.len() {
        offset + 8
    } else {
        input.len() as int
    };
    input.subrange(lo, hi)
}

/// The error reported for a failure at `offset` of `input`.
pub open spec fn spec_error_at(input: Seq<u8>, offset: int) -> ParseErrorView {
    ParseErrorView { offset: offset as u64, input: error_window(input, offset) }
}

impl ParseError {
    /// Creates the error for a failure at `offset` of `input`.
    pub fn at(input: &[u8], offset: usize) -> (r: Self)
        requires
            offset <= input@.len(),
        ensures
            r@ == spec_error_at(input@, offset as int),
    {
        let lo = if offset > 8 {
            offset - 8
        } else {
            0
        };
        let hi = if input.len() >= 8 && offset < input.len() - 8 {
            offset + 8
        } else {
            input.len()
        };
        let mut segment: Vec<u8> = Vec::new();
        segment.extend_from_slice(&input[lo..hi]);
        assert(segment@ =~= error_window(input@, offset as int));
        ParseError { offset: offset as u64, input: segment }
    }

    /// Offset where the final error occurred in the input.
    pub fn offset(&self) -> (r: u64)
        ensures
            r == self@.offset,
    {
        self.offset
    }

    /// A segment of the input near where the error occurred.
    pub fn input(&self) -> (r: &[u8])
        ensures
            r@ == self@.input,
    {
        self.input.as_slice()
    }
}

/// General purpose error.
#[derive(Debug)]
pub enum Error {
    /// Protocol error.
    Protocol(HTTPError),
    /// Parse error.
    Parse(ParseError),
    /// IO error.
    Io(IoError),
    /// Uncategorized error, with its message.
    Other(String),
}

impl From<HTTPError> for Error {
    fn from(error: HTTPError) -> (r: Self) {
        Error::Protocol(error)
    }
}

impl vstd::std_specs::convert::FromSpecImpl<HTTPError> for Error {
    open spec fn obeys_from_spec() -> bool {
        true
    }

    open spec fn from_spec(error: HTTPError) -> Self {
        Error::Protocol(error)
    }
}

} // verus!
