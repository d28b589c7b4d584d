//! Writing HTTP messages to a byte sink.
use vstd::prelude::*;

use super::request::{message_formatter, method_ok, spec_request_line_bytes, RequestHeaderView};
use super::response::{all_fields_ok, reason_ok, spec_status_line_bytes, ResponseHeaderView};
use super::{HTTPError, RequestHeader, ResponseHeader};
use crate::header::spec_formatted;
use crate::io::{ByteWrite, IoError};

verus! {

/// States of a [MessageWriter].
#[derive(Debug, Clone, Copy, PartialEq, Eq, Structural)]
pub enum WriterState {
    /// Before a message header.
    Header,
    /// Within a message body.
    Body,
}

/// The bytes of a request header followed by the CRLF that ends it.
pub open spec fn spec_request_message_head(h: RequestHeaderView) -> Seq<u8> {
    spec_request_line_bytes(h.request_line) + seq![0x0Du8, 0x0Au8] + spec_formatted(
        message_formatter(),
        h.fields,
    ) + seq![0x0Du8, 0x0Au8]
}

/// The bytes of a response header followed by the CRLF that ends it.
pub open spec fn spec_response_message_head(h: ResponseHeaderView) -> Seq<u8> {
    spec_status_line_bytes(h.status_line) + seq![0x0Du8, 0x0Au8] + spec_formatted(
        message_formatter(),
        h.fields,
    ) + seq![0x0Du8, 0x0Au8] + seq![0x0Du8, 0x0Au8]
}

/// Writer for a message body.
pub struct BodyWriter<W: ByteWrite> {
    stream: W,
}

impl<W: ByteWrite> BodyWriter<W> {
    /// The wrapped stream.
    pub closed spec fn spec_stream(&self) -> W {
        self.stream
    }
}

impl<W: ByteWrite> ByteWrite for BodyWriter<W> {
    closed spec fn written(&self) -> Seq<u8> {
        self.stream.written()
    }

    closed spec fn write_fails(&self) -> bool {
        self.stream.write_fails()
    }

    fn write_all(&mut self, buf: &[u8]) -> (r: Result<(), IoError>) {
        self.stream.write_all(buf)
    }

    fn flush(&mut self) -> (r: Result<(), IoError>) {
        self.stream.flush()
    }
}

/// HTTP request and response writer.
pub struct MessageWriter<W: ByteWrite> {
    body_writer: BodyWriter<W>,
    state: WriterState,
}

impl<W: ByteWrite> MessageWriter<W> {
    /// The wrapped stream.
    pub closed spec fn spec_stream(&self) -> W {
        self.body_writer.stream
    }

    /// The writing state.
    pub closed spec fn spec_state(&self) -> WriterState {
        self.state
    }

    /// Creates a new `MessageWriter` with the given stream.
    pub fn new(stream: W) -> (r: Self)
        ensures
            r.spec_stream() == stream,
            r.spec_state() == WriterState::Header,
    {
        Self { body_writer: BodyWriter { stream }, state: WriterState::Header }
    }

    /// Returns a reference to the wrapped stream.
    pub fn get_ref(&self) -> (r: &W)
        ensures
            *r == self.spec_stream(),
    {
        &self.body_writer.stream
    }

    /// Returns a mutable reference to the wrapped stream.
    pub fn get_mut(&mut self) -> (r: &mut W)
        ensures
            *r == old(self).spec_stream(),
            final(self).spec_stream() == *final(r),
            final(self).spec_state() == old(self).spec_state(),
    {
        &mut self.body_writer.stream
    }

    /// Returns the wrapped stream.
    pub fn into_inner(self) -> (r: W)
        ensures
            r == self.spec_stream(),
    {
        self.body_writer.stream
    }

    /// Writes `bytes`, then returns `formatted` when it is an error.
    fn write_head(&mut self, bytes: &Vec<u8>, formatted: Result<(), HTTPError>) -> (r: Result<
        (),
        HTTPError,
    >)
        ensures
            final(self).spec_state() == old(self).spec_state(),
            final(self).spec_stream().write_fails() == old(self).spec_stream().write_fails(),
            formatted is Err ==> r is Err,
            formatted is Ok && !old(self).spec_stream().write_fails() ==> {
                &&& r is Ok
                &&& final(self).spec_stream().written() == old(self).spec_stream().written()
                    + bytes@ + seq![0x0Du8, 0x0Au8]
            },
            old(self).spec_stream().write_fails() ==> r is Err,
    {
        match self.body_writer.stream.write_all(bytes.as_slice()) {
            Ok(()) => {},
            Err(e) => {
                return Err(HTTPError::Io(e));
            },
        }
        if formatted.is_err() {
            return formatted;
        }
        let crlf: [u8; 2] = [0x0D, 0x0A];
        match self.body_writer.stream.write_all(&crlf) {
            Ok(()) => {},
            Err(e) => {
                return Err(HTTPError::Io(e));
            },
        }
        assert(crlf@ =~= seq![0x0Du8, 0x0Au8]);
        match self.body_writer.stream.flush() {
            Ok(()) => Ok(()),
            Err(e) => Err(HTTPError::Io(e)),
        }
    }

    /// Begins writing a HTTP request: the header and the CRLF after it.
    ///
    /// [Self::write_body] or [Self::end_message] must be called next.
    pub fn begin_request(&mut self, header: &RequestHeader) -> (r: Result<(), HTTPError>)
        requires
            old(self).spec_state() == WriterState::Header,
        ensures
            final(self).spec_stream().write_fails() == old(self).spec_stream().write_fails(),
            (method_ok(header@.request_line) && all_fields_ok(header@.fields) && !old(
                self,
            ).spec_stream().write_fails()) ==> {
                &&& r is Ok
                &&& final(self).spec_stream().written() == old(self).spec_stream().written()
                    + spec_request_message_head(header@)
                &&& final(self).spec_state() == WriterState::Body
            },
            !(method_ok(header@.request_line) && all_fields_ok(header@.fields)) ==> r is Err
                && final(self).spec_state() == WriterState::Header,
            old(self).spec_stream().write_fails() ==> r is Err,
    {
        let mut bytes: Vec<u8> = Vec::new();
        let formatted = header.format(&mut bytes);
        proof {
            if method_ok(header@.request_line) && all_fields_ok(header@.fields) {
                assert(bytes@ =~= spec_request_line_bytes(header@.request_line) + seq![0x0Du8, 0x0Au8]
                    + spec_formatted(message_formatter(), header@.fields));
            }
        }
        self.write_head(&bytes, formatted)?;
        self.state = WriterState::Body;
        assert(self.spec_stream().written() =~= old(self).spec_stream().written()
            + spec_request_message_head(header@)) by {
            if method_ok(header@.request_line) && all_fields_ok(header@.fields) {
            }
        }
        Ok(())
    }

    /// Begins writing a HTTP response: the header and the CRLF after it.
    ///
    /// [Self::write_body] or [Self::end_message] must be called next.
    pub fn begin_response(&mut self, header: &ResponseHeader) -> (r: Result<(), HTTPError>)
        requires
            old(self).spec_state() == WriterState::Header,
        ensures
            final(self).spec_stream().write_fails() == old(self).spec_stream().write_fails(),
            (reason_ok(header@.status_line) && all_fields_ok(header@.fields) && !old(
                self,
            ).spec_stream().write_fails()) ==> {
                &&& r is Ok
                &&& final(self).spec_stream().written() == old(self).spec_stream().written()
                    + spec_response_message_head(header@)
                &&& final(self).spec_state() == WriterState::Body
            },
            !(reason_ok(header@.status_line) && all_fields_ok(header@.fields)) ==> r is Err
                && final(self).spec_state() == WriterState::Header,
            old(self).spec_stream().write_fails() ==> r is Err,
    {
        let mut bytes: Vec<u8> = Vec::new();
        let formatted = header.format(&mut bytes);
        self.write_head(&bytes, formatted)?;
        self.state = WriterState::Body;
        Ok(())
    }

    /// Returns a writer for writing the message body.
    ///
    /// Once the message body has been written, [Self::end_message] must be
    /// called next.
    pub fn write_body(&mut self) -> (r: &mut BodyWriter<W>)
        requires
            old(self).spec_state() == WriterState::Body,
        ensures
            r.spec_stream() == old(self).spec_stream(),
            final(self).spec_stream() == final(r).spec_stream(),
            final(self).spec_state() == WriterState::Body,
    {
        &mut self.body_writer
    }

    /// Finishes writing the message: flushes the stream.
    ///
    /// [Self::begin_request] or [Self::begin_response] may be called next if
    /// the protocol allows it.
    pub fn end_message(&mut self) -> (r: Result<(), HTTPError>)
        requires
            old(self).spec_state() == WriterState::Body,
        ensures
            final(self).spec_stream().write_fails() == old(self).spec_stream().write_fails(),
            !old(self).spec_stream().write_fails() ==> {
                &&& r is Ok
                &&& final(self).spec_stream().written() == old(self).spec_stream().written()
                &&& final(self).spec_state() == WriterState::Header
            },
            old(self).spec_stream().write_fails() ==> r is Err,
    {
        match self.body_writer.stream.flush() {
            Ok(()) => {},
            Err(e) => {
                return Err(HTTPError::Io(e));
            },
        }
        self.state = WriterState::Header;
        Ok(())
    }
}

} // verus!
