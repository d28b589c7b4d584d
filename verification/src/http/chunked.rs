//! Chunked transfer coding.
use vstd::prelude::*;

use super::pc::{chunk_line, parse_chunk_line, chunk_line_fallback, parse_chunk_line_fallback};
use super::{ErrorSource, HTTPError};
use crate::error::{spec_error_at, ParseError};
use crate::header::{
    boundary_end, limited, read_until_boundary, spec_parse_header, spec_trim_trailing_crlf,
    trim_trailing_crlf, HeaderMap, HeaderParser,
};
use crate::io::{
    copy_into, read_limit_until, until_hits_end, until_len, ByteBufRead, ByteRead, IoError,
    IoErrorKind,
};

verus! {

/// Abstract contents of a [ChunkMetadata].
pub struct ChunkMetadataView {
    /// Size of chunk data.
    pub length: u64,
    /// Chunk extensions.
    pub parameters: Seq<(Seq<char>, Seq<char>)>,
}

/// Decoded chunked coding size and extensions line.
#[derive(Debug)]
pub struct ChunkMetadata {
    /// Size of chunk data.
    pub length: u64,
    /// Chunk extensions.
    pub parameters: Vec<(String, String)>,
}

impl View for ChunkMetadata {
    type V = ChunkMetadataView;

    open spec fn view(&self) -> ChunkMetadataView {
        ChunkMetadataView {
            length: self.length,
            parameters: self.parameters@.map_values(|e: (String, String)| (e.0@, e.1@)),
        }
    }
}

/// The metadata of a chunk-size line: size and extensions, or, when the
/// extensions or line ending are malformed, the size alone.
pub open spec fn spec_chunk_metadata(line: Seq<u8>) -> Option<ChunkMetadataView> {
    match chunk_line(line) {
        Some((size, exts)) => Some(ChunkMetadataView { length: size, parameters: exts }),
        None => match chunk_line_fallback(line) {
            Some(size) => Some(ChunkMetadataView { length: size, parameters: seq![] }),
            None => None,
        },
    }
}

/// Parses chunked coding metadata line.
///
/// Input should contain the ending CRLF. When only the size can be read,
/// the extensions are left empty; when not even the size can be read, the
/// error is `InvalidEncoding` at offset 0.
pub fn parse_chunk_metadata(line: &[u8]) -> (r: Result<ChunkMetadata, HTTPError>)
    ensures
        match spec_chunk_metadata(line@) {
            Some(m) => r matches Ok(meta) && meta@ == m,
            None => r matches Err(HTTPError::InvalidEncoding { source: Some(ErrorSource::Parse(e)) })
                && e@ == spec_error_at(line@, 0),
        },
{
    if let Some((length, parameters)) = parse_chunk_line(line) {
        return Ok(ChunkMetadata { length, parameters });
    }
    match parse_chunk_line_fallback(line) {
        Some(size) => {
            let parameters: Vec<(String, String)> = Vec::new();
            assert(parameters@.map_values(|e: (String, String)| (e.0@, e.1@)) =~= Seq::<
                (Seq<char>, Seq<char>),
            >::empty());
            Ok(ChunkMetadata { length: size, parameters })
        },
        None => Err(
            HTTPError::InvalidEncoding {
                source: Some(ErrorSource::Parse(ParseError::at(line, 0))),
            },
        ),
    }
}

/// Reader that yields at most `limit` bytes of another reader.
pub struct TakeReader<R: ByteBufRead> {
    inner: R,
    limit: u64,
}

impl<R: ByteBufRead> TakeReader<R> {
    /// The wrapped stream.
    pub closed spec fn spec_inner(&self) -> R {
        self.inner
    }

    /// The number of bytes that may still be read.
    pub closed spec fn spec_limit(&self) -> u64 {
        self.limit
    }

    /// Creates a reader of at most `limit` bytes of `inner`.
    pub fn new(inner: R, limit: u64) -> (r: Self)
        requires
            inner.inv(),
        ensures
            r.inv(),
            r.spec_inner() == inner,
            r.spec_limit() == limit,
    {
        TakeReader { inner, limit }
    }

    /// Returns the number of bytes that may still be read.
    pub fn limit(&self) -> (r: u64)
        ensures
            r == self.spec_limit(),
    {
        self.limit
    }

    /// Returns a reference to the wrapped stream.
    pub fn get_ref(&self) -> (r: &R)
        ensures
            *r == self.spec_inner(),
    {
        &self.inner
    }

    /// Returns the wrapped stream.
    pub fn into_inner(self) -> (r: R)
        ensures
            r == self.spec_inner(),
    {
        self.inner
    }
}

impl<R: ByteBufRead> ByteRead for TakeReader<R> {
    open spec fn inv(&self) -> bool {
        self.spec_inner().inv()
    }

    open spec fn pending(&self) -> Seq<u8> {
        limited(self.spec_inner().pending(), self.spec_limit() as nat)
    }

    open spec fn fails(&self) -> bool {
        self.spec_inner().fails() && self.spec_inner().pending().len() < self.spec_limit()
    }

    closed spec fn reads_fully(&self) -> bool {
        false
    }

    proof fn lemma_pending_len(&self) {
        self.inner.lemma_pending_len();
    }

    fn read(&mut self, buf: &mut [u8]) -> (r: Result<usize, IoError>)
        ensures
            r matches Ok(n) ==> {
                &&& final(self).spec_limit() == old(self).spec_limit() - n
                &&& final(self).spec_inner().pending() == old(self).spec_inner().pending().skip(
                    n as int,
                )
                &&& final(self).spec_inner().fails() == old(self).spec_inner().fails()
            },
            r is Err ==> {
                &&& final(self).spec_limit() == old(self).spec_limit()
                &&& final(self).spec_inner().pending().len() == 0
                &&& final(self).spec_inner().fails()
            },
    {
        if self.limit == 0 {
            assert(self.inner.pending().skip(0) =~= self.inner.pending());
            return Ok(0);
        }
        let max: usize = if (buf.len() as u64) < self.limit {
            buf.len()
        } else {
            self.limit as usize
        };
        let mut tmp: Vec<u8> = Vec::new();
        tmp.resize(max, 0u8);
        let ghost p = self.inner.pending();
        let n = match self.inner.read(tmp.as_mut_slice()) {
            Ok(n) => n,
            Err(e) => {
                return Err(e);
            },
        };
        copy_into(buf, 0, tmp.as_slice(), 0, n);
        self.limit = self.limit - n as u64;
        proof {
            assert(buf@.take(n as int) =~= tmp@.take(n as int));
            assert(buf@.skip(n as int) =~= old(buf)@.skip(n as int));
            assert(self.pending() =~= old(self).pending().skip(n as int));
            assert(old(self).pending().take(n as int) =~= p.take(n as int));
        }
        Ok(n)
    }
}

impl<R: ByteBufRead> ByteBufRead for TakeReader<R> {
    open spec fn buffered(&self) -> Seq<u8> {
        limited(self.spec_inner().buffered(), self.spec_limit() as nat)
    }

    fn fill_buf(&mut self) -> (r: Result<Vec<u8>, IoError>) {
        if self.limit == 0 {
            let empty: Vec<u8> = Vec::new();
            assert(empty@ =~= self.buffered());
            return Ok(empty);
        }
        let b = self.inner.fill_buf()?;
        let n: usize = if (b.len() as u64) < self.limit {
            b.len()
        } else {
            self.limit as usize
        };
        let mut out: Vec<u8> = Vec::new();
        out.extend_from_slice(&b.as_slice()[0..n]);
        proof {
            assert(out@ =~= self.buffered());
            assert(out@ =~= old(self).pending().take(n as int));
        }
        Ok(out)
    }

    proof fn lemma_buffered(&self) {
        self.inner.lemma_buffered();
        assert(self.buffered() =~= self.pending().take(self.buffered().len() as int));
    }

    fn consume(&mut self, amount: usize) {
        proof {
            self.inner.lemma_buffered();
        }
        self.limit = self.limit - amount as u64;
        self.inner.consume(amount);
        assert(self.pending() =~= old(self).pending().skip(amount as int));
    }
}

/// Reader for a chunk's data.
pub struct ChunkDataReader<R: ByteBufRead> {
    stream: TakeReader<R>,
    amount_read: u64,
}

impl<R: ByteBufRead> ChunkDataReader<R> {
    /// The limited stream.
    pub closed spec fn spec_stream(&self) -> TakeReader<R> {
        self.stream
    }

    /// The number of bytes read through [ByteRead::read].
    pub closed spec fn spec_amount_read(&self) -> u64 {
        self.amount_read
    }

    /// Reads the rest of the chunk data, appending it to `out`.
    ///
    /// Returns the number of bytes read; on a failing stream the bytes
    /// before the failure have been appended. The bytes count as read for
    /// [ChunkedDecoder::end_chunk].
    pub fn read_to_end(&mut self, out: &mut Vec<u8>) -> (r: Result<usize, IoError>)
        requires
            old(self).inv(),
        ensures
            final(self).inv(),
            final(out)@ == old(out)@ + old(self).pending(),
            final(self).pending().len() == 0,
            final(self).spec_amount_read() == old(self).spec_amount_read() + old(
                self,
            ).pending().len(),
            final(self).spec_stream().spec_limit() == old(self).spec_stream().spec_limit() - old(
                self,
            ).pending().len(),
            final(self).spec_stream().spec_inner().pending() == old(
                self,
            ).spec_stream().spec_inner().pending().skip(old(self).pending().len() as int),
            final(self).spec_stream().spec_inner().fails() == old(
                self,
            ).spec_stream().spec_inner().fails(),
            match r {
                Ok(n) => n == old(self).pending().len() && !old(self).fails(),
                Err(_) => old(self).fails(),
            },
    {
        let ghost p0 = self.pending();
        let ghost ip0 = self.stream.inner.pending();
        let start = out.len();
        proof {
            self.lemma_pending_len();
        }
        loop
            invariant
                self.inv(),
                start == old(out)@.len(),
                out@.len() >= start,
                out@ == old(out)@ + p0.take(out@.len() - start),
                out@.len() - start <= p0.len(),
                self.pending() == p0.skip(out@.len() - start),
                self.fails() == old(self).fails(),
                p0 == old(self).pending(),
                ip0 == old(self).stream.inner.pending(),
                self.amount_read == old(self).amount_read + (out@.len() - start),
                self.stream.limit == old(self).stream.limit - (out@.len() - start),
                self.stream.inner.pending() == ip0.skip(out@.len() - start),
                self.stream.inner.fails() == old(self).stream.inner.fails(),
            decreases self.pending().len(),
        {
            let mut tmp: Vec<u8> = Vec::new();
            tmp.resize(4096, 0u8);
            let ghost k = out@.len() - start;
            match self.read(tmp.as_mut_slice()) {
                Ok(n) => {
                    if n == 0 {
                        assert(p0.take(k) =~= p0);
                        return Ok(out.len() - start);
                    }
                    let mut i: usize = 0;
                    let ghost o1 = out@;
                    while i < n
                        invariant
                            i <= n <= tmp@.len(),
                            out@ == o1 + tmp@.take(i as int),
                        decreases n - i,
                    {
                        out.push(tmp[i]);
                        i = i + 1;
                        assert(out@ =~= o1 + tmp@.take(i as int));
                    }
                    proof {
                        assert(out@ =~= old(out)@ + p0.take(k + n));
                        assert(p0.skip(k).skip(n as int) =~= p0.skip(k + n));
                        assert(ip0.skip(k).skip(n as int) =~= ip0.skip(k + n));
                    }
                },
                Err(e) => {
                    assert(p0.take(k) =~= p0);
                    return Err(e);
                },
            }
        }
    }
}

impl<R: ByteBufRead> ByteRead for ChunkDataReader<R> {
    closed spec fn inv(&self) -> bool {
        self.stream.inv() && self.amount_read + self.stream.spec_limit() <= u64::MAX
    }

    closed spec fn pending(&self) -> Seq<u8> {
        self.stream.pending()
    }

    closed spec fn fails(&self) -> bool {
        self.stream.fails()
    }

    closed spec fn reads_fully(&self) -> bool {
        false
    }

    proof fn lemma_pending_len(&self) {
        self.stream.lemma_pending_len();
    }

    fn read(&mut self, buf: &mut [u8]) -> (r: Result<usize, IoError>)
        ensures
            r matches Ok(n) ==> {
                &&& final(self).spec_amount_read() == old(self).spec_amount_read() + n
                &&& final(self).spec_stream().spec_limit() == old(self).spec_stream().spec_limit()
                    - n
                &&& final(self).spec_stream().spec_inner().pending() == old(
                    self,
                ).spec_stream().spec_inner().pending().skip(n as int)
                &&& final(self).spec_stream().spec_inner().fails() == old(
                    self,
                ).spec_stream().spec_inner().fails()
            },
            r is Err ==> {
                &&& final(self).spec_amount_read() == old(self).spec_amount_read()
                &&& final(self).spec_stream().spec_limit() == old(self).spec_stream().spec_limit()
                &&& final(self).spec_stream().spec_inner().pending().len() == 0
                &&& final(self).spec_stream().spec_inner().fails()
            },
    {
        let amount = self.stream.read(buf)?;
        self.amount_read = self.amount_read + amount as u64;
        Ok(amount)
    }
}

/// States of a [ChunkedDecoder].
#[derive(Debug, Clone, Copy, PartialEq, Eq, Structural)]
pub enum DecoderState {
    /// Before a chunk-size line.
    StartOfLine,
    /// After a chunk-size line.
    EndOfLine,
    /// Within chunk data.
    InBody,
    /// Before the trailer fields.
    StartOfTrailer,
    /// After the trailer fields.
    EndOfTrailer,
}

/// Manual decoder for a stream in chunked transfer coding.
pub struct ChunkedDecoder<R: ByteBufRead> {
    data_reader: ChunkDataReader<R>,
    state: DecoderState,
    buffer: Vec<u8>,
    buffer_limit: u64,
    chunk_length: u64,
}

/// Whether a read of at most `limit` bytes up to LF in `p` is refused:
/// the source fails at its end, or the limit is reached without an LF.
pub open spec fn line_read_fails(p: Seq<u8>, limit: nat, fails: bool) -> bool {
    let k = until_len(p, 0x0A, limit);
    (until_hits_end(p, 0x0A, limit) && fails) || (k == limit && !(k > 0 && p[k - 1] == 0x0A))
}

impl<R: ByteBufRead> ChunkedDecoder<R> {
    /// The wrapped stream.
    pub closed spec fn spec_stream(&self) -> R {
        self.data_reader.stream.spec_inner()
    }

    /// The decoding state.
    pub closed spec fn spec_state(&self) -> DecoderState {
        self.state
    }

    /// The size of the current chunk.
    pub closed spec fn spec_chunk_length(&self) -> u64 {
        self.chunk_length
    }

    /// The reader of the current chunk's data.
    pub closed spec fn spec_data_reader(&self) -> ChunkDataReader<R> {
        self.data_reader
    }

    /// Whether the internal state is consistent.
    pub closed spec fn inv(&self) -> bool {
        &&& self.data_reader.inv()
        &&& self.buffer_limit == 32768
        &&& self.state == DecoderState::InBody ==> self.data_reader.amount_read
            + self.data_reader.stream.spec_limit() == self.chunk_length
    }

    /// Creates a decoder with the given stream.
    pub fn new(stream: R) -> (r: Self)
        requires
            stream.inv(),
        ensures
            r.inv(),
            r.spec_stream() == stream,
            r.spec_state() == DecoderState::StartOfLine,
    {
        Self {
            data_reader: ChunkDataReader { stream: TakeReader::new(stream, 0), amount_read: 0 },
            state: DecoderState::StartOfLine,
            buffer: Vec::new(),
            buffer_limit: 32768,
            chunk_length: 0,
        }
    }

    /// Returns a reference to the wrapped stream.
    pub fn get_ref(&self) -> (r: &R)
        ensures
            *r == self.spec_stream(),
    {
        self.data_reader.stream.get_ref()
    }

    /// Returns a mutable reference to the wrapped stream.
    pub fn get_mut(&mut self) -> (r: &mut R)
        ensures
            *r == old(self).spec_stream(),
            final(self).spec_stream() == *final(r),
            final(self).spec_state() == old(self).spec_state(),
            final(self).spec_chunk_length() == old(self).spec_chunk_length(),
    {
        &mut self.data_reader.stream.inner
    }

    /// Returns the wrapped stream.
    pub fn into_inner(self) -> (r: R)
        ensures
            r == self.spec_stream(),
    {
        self.data_reader.stream.into_inner()
    }

    /// Starts reading a chunk: reads and parses the chunk-size line.
    ///
    /// The caller must use [Self::read_data] next. The line may be at most
    /// 4096 bytes.
    pub fn begin_chunk(&mut self) -> (r: Result<ChunkMetadata, HTTPError>)
        requires
            old(self).inv(),
            old(self).spec_state() == DecoderState::StartOfLine,
        ensures
            final(self).inv(),
            ({
                let p = old(self).spec_stream().pending();
                let k = until_len(p, 0x0A, 4096);
                if line_read_fails(p, 4096, old(self).spec_stream().fails()) {
                    r matches Err(HTTPError::Io(_))
                } else {
                    &&& final(self).spec_stream().pending() == p.skip(k as int)
                    &&& final(self).spec_stream().fails() == old(self).spec_stream().fails()
                    &&& match spec_chunk_metadata(p.take(k as int)) {
                        Some(m) => {
                            &&& r matches Ok(meta) && meta@ == m
                            &&& final(self).spec_state() == DecoderState::EndOfLine
                            &&& final(self).spec_chunk_length() == m.length
                        },
                        None => r matches Err(
                            HTTPError::InvalidEncoding { source: Some(ErrorSource::Parse(e)) },
                        ) && e@ == spec_error_at(p.take(k as int), 0),
                    }
                }
            }),
            r is Err ==> final(self).spec_state() == old(self).spec_state(),
    {
        self.buffer.clear();
        let ghost p = self.data_reader.stream.inner.pending();
        proof {
            crate::io::lemma_until_len_bounds(p, 0x0A, 4096);
        }
        assert(self.buffer@.len() == 0);
        match read_limit_until(&mut self.data_reader.stream.inner, 0x0A, &mut self.buffer, 4096) {
            Ok(_) => {},
            Err(e) => {
                return Err(HTTPError::Io(e));
            },
        }
        assert(self.buffer@ =~= p.take(until_len(p, 0x0A, 4096) as int));
        let metadata = parse_chunk_metadata(self.buffer.as_slice())?;
        self.chunk_length = metadata.length;
        self.state = DecoderState::EndOfLine;
        Ok(metadata)
    }

    /// Returns a reader for reading the chunk data.
    ///
    /// The caller must fully read until it returns no more data and then
    /// use [Self::end_chunk].
    pub fn read_data(&mut self) -> (r: &mut ChunkDataReader<R>)
        requires
            old(self).inv(),
            old(self).spec_state() == DecoderState::EndOfLine || old(self).spec_state()
                == DecoderState::InBody,
        ensures
            r.inv(),
            old(self).spec_state() == DecoderState::EndOfLine ==> {
                &&& r.pending() == limited(
                    old(self).spec_stream().pending(),
                    old(self).spec_chunk_length() as nat,
                )
                &&& r.spec_amount_read() == 0
                &&& r.spec_stream().spec_limit() == old(self).spec_chunk_length()
                &&& r.spec_stream().spec_inner() == old(self).spec_stream()
            },
            old(self).spec_state() == DecoderState::InBody ==> *r == old(self).spec_data_reader(),
            r.spec_amount_read() + r.spec_stream().spec_limit() == old(self).spec_chunk_length(),
            final(self).spec_data_reader() == *final(r),
            final(self).spec_state() == DecoderState::InBody,
            final(self).spec_chunk_length() == old(self).spec_chunk_length(),
            (final(r).inv() && final(r).spec_amount_read() + final(r).spec_stream().spec_limit()
                == old(self).spec_chunk_length()) ==> final(self).inv(),
    {
        if self.state == DecoderState::EndOfLine {
            self.data_reader.stream.limit = self.chunk_length;
            self.data_reader.amount_read = 0;
            self.state = DecoderState::InBody;
        }
        &mut self.data_reader
    }

    /// Finishes reading a chunk.
    ///
    /// Every byte of the chunk must have been read through [Self::read_data],
    /// else the error is `UnexpectedEnd`. If the chunk size was 0, the caller
    /// must call [Self::read_trailer] next; otherwise the line ending after
    /// the data (at most two bytes up to LF) is read and the next chunk may
    /// begin.
    pub fn end_chunk(&mut self) -> (r: Result<(), HTTPError>)
        requires
            old(self).inv(),
            old(self).spec_state() == DecoderState::InBody,
        ensures
            final(self).inv(),
            old(self).spec_data_reader().spec_amount_read() != old(self).spec_chunk_length() ==> (
            r matches Err(HTTPError::UnexpectedEnd) && *final(self) == *old(self)),
            old(self).spec_data_reader().spec_amount_read() == old(self).spec_chunk_length() ==> {
                let p = old(self).spec_stream().pending();
                if old(self).spec_chunk_length() == 0 {
                    &&& r is Ok
                    &&& final(self).spec_state() == DecoderState::StartOfTrailer
                    &&& final(self).spec_stream() == old(self).spec_stream()
                } else if line_read_fails(p, 2, old(self).spec_stream().fails()) {
                    r matches Err(HTTPError::Io(_))
                } else {
                    &&& r is Ok
                    &&& final(self).spec_state() == DecoderState::StartOfLine
                    &&& final(self).spec_stream().pending() == p.skip(until_len(p, 0x0A, 2) as int)
                    &&& final(self).spec_stream().fails() == old(self).spec_stream().fails()
                }
            },
    {
        if self.data_reader.amount_read != self.chunk_length {
            return Err(HTTPError::UnexpectedEnd);
        }
        if self.chunk_length == 0 {
            self.state = DecoderState::StartOfTrailer;
        } else {
            self.buffer.clear();
            let ghost p = self.data_reader.stream.inner.pending();
            proof {
                crate::io::lemma_until_len_bounds(p, 0x0A, 2);
            }
            assert(self.buffer@.len() == 0);
            match read_limit_until(&mut self.data_reader.stream.inner, 0x0A, &mut self.buffer, 2) {
                Ok(_) => {},
                Err(e) => {
                    return Err(HTTPError::Io(e));
                },
            }
            self.state = DecoderState::StartOfLine;
        }
        Ok(())
    }

    /// Finishes reading a stream: reads and parses the trailer fields.
    ///
    /// The trailer may be at most 32768 bytes. No more functions can be
    /// called after. Use [Self::into_inner] to get the wrapped stream back.
    pub fn read_trailer(&mut self) -> (r: Result<HeaderMap, HTTPError>)
        requires
            old(self).inv(),
            old(self).spec_state() == DecoderState::StartOfTrailer,
        ensures
            final(self).inv(),
            ({
                let p = old(self).spec_stream().pending();
                let q = limited(p, 32768);
                let fails_at_end = old(self).spec_stream().fails() && p.len() < 32768;
                match boundary_end(q) {
                    Some(n) => if fails_at_end && n == p.len() && p[n - 1] != 0x0A {
                        r matches Err(HTTPError::Io(_))
                    } else {
                        &&& final(self).spec_stream().pending() == p.skip(n as int)
                        &&& match spec_parse_header(spec_trim_trailing_crlf(q.take(n as int))) {
                            Ok(fields) => {
                                &&& r matches Ok(h) && h@ == fields
                                &&& final(self).spec_state() == DecoderState::EndOfTrailer
                            },
                            Err(e) => r matches Err(
                                HTTPError::InvalidEncoding { source: Some(ErrorSource::Parse(x)) },
                            ) && x@ == e,
                        }
                    },
                    None => r matches Err(HTTPError::Io(_)),
                }
            }),
    {
        self.buffer.clear();
        let ghost b0 = self.buffer@;
        match read_until_boundary(&mut self.data_reader.stream.inner, &mut self.buffer, self.buffer_limit) {
            Ok(_) => {},
            Err(e) => {
                return Err(HTTPError::Io(e));
            },
        }
        assert(self.buffer@ =~= limited(old(self).spec_stream().pending(), 32768).take(
            boundary_end(limited(old(self).spec_stream().pending(), 32768))->0 as int,
        ));
        let parser = HeaderParser::new();
        let header_map = match parser.parse_header(trim_trailing_crlf(self.buffer.as_slice())) {
            Ok(m) => m,
            Err(error) => {
                return Err(HTTPError::InvalidEncoding { source: Some(ErrorSource::Parse(error)) });
            },
        };
        self.state = DecoderState::EndOfTrailer;
        Ok(header_map)
    }
}

/// Whether the trailer at the start of `s` is read and parsed without error.
pub open spec fn trailer_ok(s: Seq<u8>, fails: bool) -> bool {
    let q = limited(s, 32768);
    let fails_at_end = fails && s.len() < 32768;
    match boundary_end(q) {
        Some(n) => !(fails_at_end && n == s.len() && s[n - 1] != 0x0A) && spec_parse_header(
            spec_trim_trailing_crlf(q.take(n as int)),
        ) is Ok,
        None => false,
    }
}

/// What a chunked body yields from the start of a chunk-size line in `s`:
/// the decoded data, and whether reading then fails rather than ends.
pub open spec fn chunked_from_line(s: Seq<u8>, fails: bool) -> (Seq<u8>, bool)
    decreases s.len(), 1nat,
{
    let k = until_len(s, 0x0A, 4096);
    if line_read_fails(s, 4096, fails) {
        (seq![], true)
    } else {
        match spec_chunk_metadata(s.take(k as int)) {
            None => (seq![], true),
            Some(m) => if m.length == 0 {
                (seq![], !trailer_ok(s.skip(k as int), fails))
            } else if 0 < k <= s.len() {
                chunked_data(s.skip(k as int), m.length as nat, fails)
            } else {
                (seq![], true)
            },
        }
    }
}

/// What a chunked body yields from within chunk data with `remaining` data
/// bytes left: the data, then the line ending and the following chunks.
/// Data cut short by the end of `s` ends the body.
pub open spec fn chunked_data(s: Seq<u8>, remaining: nat, fails: bool) -> (Seq<u8>, bool)
    decreases s.len(), 2nat,
{
    if s.len() < remaining {
        (s, fails)
    } else {
        let rest = s.skip(remaining as int);
        let d = until_len(rest, 0x0A, 2);
        if line_read_fails(rest, 2, fails) {
            (s.take(remaining as int), true)
        } else if d <= rest.len() {
            let (more, f) = chunked_from_line(rest.skip(d as int), fails);
            (s.take(remaining as int) + more, f)
        } else {
            (s.take(remaining as int), true)
        }
    }
}

proof fn lemma_from_line_len(s: Seq<u8>, fails: bool)
    ensures
        chunked_from_line(s, fails).0.len() <= s.len(),
    decreases s.len(), 1nat,
{
    let k = until_len(s, 0x0A, 4096);
    if !line_read_fails(s, 4096, fails) {
        match spec_chunk_metadata(s.take(k as int)) {
            Some(m) => if m.length != 0 && 0 < k <= s.len() {
                lemma_data_len(s.skip(k as int), m.length as nat, fails);
            },
            None => {},
        }
    }
}

proof fn lemma_data_len(s: Seq<u8>, remaining: nat, fails: bool)
    ensures
        chunked_data(s, remaining, fails).0.len() <= s.len(),
    decreases s.len(), 2nat,
{
    if s.len() >= remaining {
        let rest = s.skip(remaining as int);
        let d = until_len(rest, 0x0A, 2);
        if !line_read_fails(rest, 2, fails) && d <= rest.len() {
            lemma_from_line_len(rest.skip(d as int), fails);
        }
    }
}

proof fn lemma_chunked_data_skip(s: Seq<u8>, remaining: nat, fails: bool, n: nat)
    requires
        0 < n <= remaining,
        n <= s.len(),
    ensures
        chunked_data(s.skip(n as int), (remaining - n) as nat, fails) == (
            chunked_data(s, remaining, fails).0.skip(n as int),
            chunked_data(s, remaining, fails).1,
        ),
{
    let t = s.skip(n as int);
    let r2 = (remaining - n) as nat;
    if s.len() < remaining {
    } else {
        assert(t.skip(r2 as int) =~= s.skip(remaining as int));
        assert(t.take(r2 as int) =~= s.take(remaining as int).skip(n as int));
        let rest = s.skip(remaining as int);
        let d = until_len(rest, 0x0A, 2);
        if !line_read_fails(rest, 2, fails) && d <= rest.len() {
            let (more, f) = chunked_from_line(rest.skip(d as int), fails);
            assert((s.take(remaining as int) + more).skip(n as int) =~= s.take(remaining as int).skip(
                n as int,
            ) + more);
        }
    }
}

/// States of a [ChunkedReader].
#[derive(Debug, Clone, Copy, PartialEq, Eq, Structural)]
pub enum ChunkedReaderState {
    /// Before a chunk-size line.
    Start,
    /// Within chunk data.
    ReadingData,
    /// After the last chunk and the trailer.
    Finished,
    /// After an error; reading fails from then on.
    Failed,
}

/// Reads and decodes a stream in chunked transfer coding.
///
/// After an error, every further read fails.
pub struct ChunkedReader<R: ByteBufRead> {
    inner: ChunkedDecoder<R>,
    state: ChunkedReaderState,
    chunk_size: u64,
    chunk_amount_read: u64,
}

impl<R: ByteBufRead> ChunkedReader<R> {
    /// The wrapped stream.
    pub closed spec fn spec_stream(&self) -> R {
        self.inner.spec_stream()
    }

    /// Creates a new `ChunkedReader` with the given stream.
    pub fn new(stream: R) -> (r: Self)
        requires
            stream.inv(),
        ensures
            r.inv(),
            r.spec_stream() == stream,
            r.pending() == chunked_from_line(stream.pending(), stream.fails()).0,
            r.fails() == chunked_from_line(stream.pending(), stream.fails()).1,
    {
        Self {
            inner: ChunkedDecoder::new(stream),
            state: ChunkedReaderState::Start,
            chunk_size: 0,
            chunk_amount_read: 0,
        }
    }

    /// Returns a reference to the wrapped stream.
    pub fn get_ref(&self) -> (r: &R)
        ensures
            *r == self.spec_stream(),
    {
        self.inner.get_ref()
    }

    /// Returns a mutable reference to the wrapped stream.
    pub fn get_mut(&mut self) -> (r: &mut R)
        ensures
            *r == old(self).spec_stream(),
            final(self).spec_stream() == *final(r),
    {
        self.inner.get_mut()
    }

    /// Returns the wrapped stream.
    pub fn into_inner(self) -> (r: R)
        ensures
            r == self.spec_stream(),
    {
        self.inner.into_inner()
    }

    fn read_0_chunk_and_trailer(&mut self) -> (r: Result<(), IoError>)
        requires
            old(self).inner.inv(),
            old(self).inner.spec_state() == DecoderState::EndOfLine,
            old(self).inner.spec_chunk_length() == 0,
        ensures
            final(self).inner.inv(),
            final(self).state == old(self).state,
            r is Ok <==> trailer_ok(old(self).spec_stream().pending(), old(self).spec_stream().fails()),
    {
        let ghost p = self.inner.spec_stream().pending();
        assert(p.skip(0) =~= p);
        let reader = self.inner.read_data();
        let mut temp: Vec<u8> = Vec::new();
        temp.push(0u8);
        let _amount = match reader.read(temp.as_mut_slice()) {
            Ok(a) => a,
            Err(e) => {
                return Err(e);
            },
        };
        match self.inner.end_chunk() {
            Ok(()) => {},
            Err(_) => {
                return Err(IoError::new(IoErrorKind::Other));
            },
        }
        match self.inner.read_trailer() {
            Ok(_) => Ok(()),
            Err(_) => Err(IoError::new(IoErrorKind::Other)),
        }
    }
}

impl<R: ByteBufRead> ByteRead for ChunkedReader<R> {
    closed spec fn inv(&self) -> bool {
        &&& self.inner.inv()
        &&& self.state == ChunkedReaderState::Start ==> self.inner.spec_state()
            == DecoderState::StartOfLine
        &&& self.state == ChunkedReaderState::ReadingData ==> {
            &&& self.inner.spec_state() == DecoderState::InBody
            &&& self.chunk_size > 0
            &&& self.inner.spec_chunk_length() == self.chunk_size
            &&& self.inner.spec_data_reader().spec_amount_read() == self.chunk_amount_read
        }
    }

    closed spec fn pending(&self) -> Seq<u8> {
        let s = self.inner.spec_stream().pending();
        let f = self.inner.spec_stream().fails();
        match self.state {
            ChunkedReaderState::Start => chunked_from_line(s, f).0,
            ChunkedReaderState::ReadingData => chunked_data(
                s,
                self.inner.spec_data_reader().spec_stream().spec_limit() as nat,
                f,
            ).0,
            _ => seq![],
        }
    }

    closed spec fn fails(&self) -> bool {
        let s = self.inner.spec_stream().pending();
        let f = self.inner.spec_stream().fails();
        match self.state {
            ChunkedReaderState::Start => chunked_from_line(s, f).1,
            ChunkedReaderState::ReadingData => chunked_data(
                s,
                self.inner.spec_data_reader().spec_stream().spec_limit() as nat,
                f,
            ).1,
            ChunkedReaderState::Finished => false,
            ChunkedReaderState::Failed => true,
        }
    }

    closed spec fn reads_fully(&self) -> bool {
        false
    }

    proof fn lemma_pending_len(&self) {
        let s = self.inner.spec_stream().pending();
        let f = self.inner.spec_stream().fails();
        self.inner.spec_stream().lemma_pending_len();
        lemma_from_line_len(s, f);
        lemma_data_len(s, self.inner.spec_data_reader().spec_stream().spec_limit() as nat, f);
    }

    fn read(&mut self, buf: &mut [u8]) -> (r: Result<usize, IoError>) {
        if buf.len() == 0 || self.state == ChunkedReaderState::Finished {
            assert(buf@.skip(0) =~= old(buf)@.skip(0));
            assert(self.pending().skip(0) =~= self.pending());
            return Ok(0);
        }
        if self.state == ChunkedReaderState::Failed {
            return Err(IoError::new(IoErrorKind::Other));
        }
        loop
            invariant
                self.inv(),
                self.pending() == old(self).pending(),
                self.fails() == old(self).fails(),
                buf@ == old(buf)@,
                buf@.len() > 0,
                self.state == ChunkedReaderState::Start || self.state
                    == ChunkedReaderState::ReadingData,
            decreases 3 * self.inner.spec_stream().pending().len() + (if self.state
                == ChunkedReaderState::Start {
                1int
            } else {
                2int
            }),
        {
            if self.state == ChunkedReaderState::Start {
                match self.start_chunk() {
                    Ok(true) => {},
                    Ok(false) => {
                        assert(buf@.skip(0) =~= buf@);
                        assert(old(buf)@.skip(0) =~= old(buf)@);
                        assert(old(self).pending().skip(0) =~= old(self).pending());
                        return Ok(0);
                    },
                    Err(e) => {
                        return Err(e);
                    },
                }
            }
            let amount = self.read_chunk_data(buf)?;
            if amount == 0 && self.chunk_amount_read == self.chunk_size {
                self.finish_chunk()?;
            } else {
                if amount == 0 {
                    assert(buf@.skip(0) =~= buf@);
                    assert(old(buf)@.skip(0) =~= old(buf)@);
                    assert(old(self).pending().skip(0) =~= old(self).pending());
                }
                return Ok(amount);
            }
        }
    }
}

impl<R: ByteBufRead> ChunkedReader<R> {
    /// Reads the next chunk-size line; moves into the chunk data, or, for the
    /// last chunk, reads the trailer and finishes.
    fn start_chunk(&mut self) -> (r: Result<bool, IoError>)
        requires
            old(self).inv(),
            old(self).state == ChunkedReaderState::Start,
        ensures
            final(self).inv(),
            match r {
                Ok(true) => {
                    &&& final(self).state == ChunkedReaderState::ReadingData
                    &&& final(self).pending() == old(self).pending()
                    &&& final(self).fails() == old(self).fails()
                    &&& final(self).inner.spec_stream().pending().len() < old(
                        self,
                    ).inner.spec_stream().pending().len()
                },
                Ok(false) => {
                    &&& final(self).state == ChunkedReaderState::Finished
                    &&& old(self).pending().len() == 0
                    &&& !old(self).fails()
                },
                Err(_) => {
                    &&& final(self).state == ChunkedReaderState::Failed
                    &&& old(self).pending().len() == 0
                    &&& old(self).fails()
                },
            },
    {
        let ghost s = self.inner.spec_stream().pending();
        let ghost f = self.inner.spec_stream().fails();
        let metadata = match self.inner.begin_chunk() {
            Ok(m) => m,
            Err(_) => {
                self.state = ChunkedReaderState::Failed;
                return Err(IoError::new(IoErrorKind::Other));
            },
        };
        let ghost k = until_len(s, 0x0A, 4096);
        proof {
            crate::io::lemma_until_len_bounds(s, 0x0A, 4096);
            lemma_metadata_nonempty(s.take(k as int));
        }
        self.chunk_size = metadata.length;
        self.chunk_amount_read = 0;
        if self.chunk_size == 0 {
            match self.read_0_chunk_and_trailer() {
                Ok(()) => {
                    self.state = ChunkedReaderState::Finished;
                    return Ok(false);
                },
                Err(e) => {
                    self.state = ChunkedReaderState::Failed;
                    return Err(e);
                },
            }
        }
        let _data = self.inner.read_data();
        self.state = ChunkedReaderState::ReadingData;
        Ok(true)
    }

    /// Reads data of the current chunk into `buf`.
    fn read_chunk_data(&mut self, buf: &mut [u8]) -> (r: Result<usize, IoError>)
        requires
            old(self).inv(),
            old(self).state == ChunkedReaderState::ReadingData,
            old(buf)@.len() > 0,
        ensures
            final(self).inv(),
            final(buf)@.len() == old(buf)@.len(),
            match r {
                Ok(n) => if n > 0 {
                    &&& n <= old(buf)@.len()
                    &&& n <= old(self).pending().len()
                    &&& final(buf)@.take(n as int) == old(self).pending().take(n as int)
                    &&& final(buf)@.skip(n as int) == old(buf)@.skip(n as int)
                    &&& final(self).pending() == old(self).pending().skip(n as int)
                    &&& final(self).fails() == old(self).fails()
                    &&& final(self).state == ChunkedReaderState::ReadingData
                } else if final(self).chunk_amount_read == final(self).chunk_size {
                    &&& final(buf)@ == old(buf)@
                    &&& final(self).pending() == old(self).pending()
                    &&& final(self).fails() == old(self).fails()
                    &&& final(self).state == ChunkedReaderState::ReadingData
                    &&& final(self).inner.spec_stream().pending() == old(
                        self,
                    ).inner.spec_stream().pending()
                } else {
                    &&& final(buf)@ == old(buf)@
                    &&& final(self).pending() == old(self).pending()
                    &&& final(self).fails() == old(self).fails()
                    &&& old(self).pending().len() == 0
                    &&& !old(self).fails()
                },
                Err(_) => {
                    &&& final(self).state == ChunkedReaderState::Failed
                    &&& old(self).pending().len() == 0
                    &&& old(self).fails()
                },
            },
    {
        let ghost s = self.inner.spec_stream().pending();
        let ghost f = self.inner.spec_stream().fails();
        let data = self.inner.read_data();
        let ghost lim = data.spec_stream().spec_limit();
        let amount = match data.read(buf) {
            Ok(a) => a,
            Err(e) => {
                self.state = ChunkedReaderState::Failed;
                return Err(e);
            },
        };
        self.chunk_amount_read = self.chunk_amount_read + amount as u64;
        proof {
            if amount > 0 {
                lemma_chunked_data_skip(s, lim as nat, f, amount as nat);
            } else {
                assert(buf@ =~= buf@.skip(0));
                assert(old(buf)@ =~= old(buf)@.skip(0));
                assert(buf@ =~= old(buf)@);
                assert(s.skip(0) =~= s);
            }
        }
        Ok(amount)
    }

    /// Reads the line ending after complete chunk data.
    fn finish_chunk(&mut self) -> (r: Result<(), IoError>)
        requires
            old(self).inv(),
            old(self).state == ChunkedReaderState::ReadingData,
            old(self).chunk_amount_read == old(self).chunk_size,
        ensures
            final(self).inv(),
            match r {
                Ok(()) => {
                    &&& final(self).state == ChunkedReaderState::Start
                    &&& final(self).pending() == old(self).pending()
                    &&& final(self).fails() == old(self).fails()
                    &&& final(self).inner.spec_stream().pending().len() <= old(
                        self,
                    ).inner.spec_stream().pending().len()
                },
                Err(_) => {
                    &&& final(self).state == ChunkedReaderState::Failed
                    &&& old(self).pending().len() == 0
                    &&& old(self).fails()
                },
            },
    {
        let ghost s = self.inner.spec_stream().pending();
        proof {
            crate::io::lemma_until_len_bounds(s, 0x0A, 2);
            assert(s.skip(0) =~= s);
        }
        match self.inner.end_chunk() {
            Ok(()) => {},
            Err(_) => {
                self.state = ChunkedReaderState::Failed;
                return Err(IoError::new(IoErrorKind::Other));
            },
        }
        self.state = ChunkedReaderState::Start;
        proof {
            let d = until_len(s, 0x0A, 2);
            let (more, f2) = chunked_from_line(s.skip(d as int), old(self).fails());
            assert(s.take(0) + more =~= more);
        }
        Ok(())
    }
}

proof fn lemma_metadata_nonempty(line: Seq<u8>)
    ensures
        spec_chunk_metadata(line) is Some ==> line.len() > 0,
{
}

} // verus!
