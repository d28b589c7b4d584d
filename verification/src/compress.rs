//! Compression formats and levels, and compression and decompression streams.
use vstd::prelude::*;

use crate::codec::{
    brotli_decoded, brotli_encoded, decode_brotli, decode_deflate_raw, decode_gzip, decode_zlib,
    decode_zstd, deflate_raw_decoded, deflate_raw_encoded, encode_brotli, encode_deflate_raw,
    encode_gzip, encode_zlib, encode_zstd, gzip_decoded, gzip_encoded, zlib_decoded,
    zlib_encoded, zstd_decoded, zstd_encoded,
};
use crate::io::{read_to_end, ByteRead, ByteWrite, IoError, IoErrorKind, MemReader};
use crate::stream::PeekReader;
use crate::stringutil::{lower_chars, str_eq, to_ascii_lowercase};

verus! {

/// Specifies a compression or decompression format.
#[derive(Debug, Clone, Copy, PartialEq, Eq, Structural)]
pub enum CompressionFormat {
    /// Apply no codec. Pass data through as is.
    Raw,
    /// DEFLATE raw stream.
    DeflateRaw,
    /// DEFLATE in Zlib wrapper file format.
    DeflateZlib,
    /// Gzip file format.
    Gzip,
    /// Brotli raw stream.
    Brotli,
    /// Zstandard file format.
    Zstd,
}

/// The HTTP content coding name of a format.
pub open spec fn coding_name(f: CompressionFormat) -> Seq<char> {
    match f {
        CompressionFormat::Raw => "identity"@,
        CompressionFormat::DeflateRaw => "deflate"@,
        CompressionFormat::DeflateZlib => "deflate"@,
        CompressionFormat::Gzip => "gzip"@,
        CompressionFormat::Brotli => "br"@,
        CompressionFormat::Zstd => "zstd"@,
    }
}

/// The format named by a coding name, compared without ASCII case.
pub open spec fn format_for_name(name: Seq<char>) -> Option<CompressionFormat> {
    let n = lower_chars(name);
    if n == "identity"@ {
        Some(CompressionFormat::Raw)
    } else if n == "deflate"@ {
        Some(CompressionFormat::DeflateZlib)
    } else if n == "gzip"@ || n == "x-gzip"@ || n == "gz"@ {
        Some(CompressionFormat::Gzip)
    } else if n == "brotli"@ || n == "br"@ {
        Some(CompressionFormat::Brotli)
    } else if n == "zstd"@ {
        Some(CompressionFormat::Zstd)
    } else {
        None
    }
}

impl CompressionFormat {
    /// Returns the HTTP content coding name
    pub fn as_coding_name_str(&self) -> (r: &'static str)
        ensures
            r@ == coding_name(*self),
    {
        match self {
            CompressionFormat::Raw => "identity",
            CompressionFormat::DeflateRaw => "deflate",
            CompressionFormat::DeflateZlib => "deflate",
            CompressionFormat::Gzip => "gzip",
            CompressionFormat::Brotli => "br",
            CompressionFormat::Zstd => "zstd",
        }
    }

    /// Returns the format for a coding or file format name, ignoring ASCII case.
    ///
    /// `identity`, `deflate`, `gzip` (`x-gzip`, `gz`), `brotli` (`br`) and
    /// `zstd` are known; `None` for any other name.
    pub fn from_name(s: &str) -> (r: Option<CompressionFormat>)
        ensures
            r == format_for_name(s@),
    {
        let lower = to_ascii_lowercase(s);
        let n = lower.as_str();
        if str_eq(n, "identity") {
            Some(CompressionFormat::Raw)
        } else if str_eq(n, "deflate") {
            Some(CompressionFormat::DeflateZlib)
        } else if str_eq(n, "gzip") || str_eq(n, "x-gzip") || str_eq(n, "gz") {
            Some(CompressionFormat::Gzip)
        } else if str_eq(n, "brotli") || str_eq(n, "br") {
            Some(CompressionFormat::Brotli)
        } else if str_eq(n, "zstd") {
            Some(CompressionFormat::Zstd)
        } else {
            None
        }
    }
}

/// The format recognized from the first four bytes of a file, if any.
pub open spec fn format_for_magic(m: Seq<u8>) -> Option<CompressionFormat> {
    if m[0] == 0x78 && (m[1] == 0x01 || m[1] == 0x5e || m[1] == 0x9c || m[1] == 0xda) {
        Some(CompressionFormat::DeflateZlib)
    } else if m[0] == 0x1f && m[1] == 0x8b {
        Some(CompressionFormat::Gzip)
    } else if (m[0] == 0x28 && m[1] == 0xb5 && m[2] == 0x2f && m[3] == 0xfd) || (m[0] == 0x37
        && m[1] == 0xa4 && m[2] == 0x30 && m[3] == 0xec) {
        Some(CompressionFormat::Zstd)
    } else {
        None
    }
}

/// Chooses the decoder for a file that starts with `magic`.
///
/// Fewer than four bytes give `UnexpectedEof`. A Zlib, Gzip or Zstandard
/// signature selects that format; any other start selects `Raw` when
/// `allow_unknown` and gives `InvalidData` otherwise.
pub fn select_decoder(magic: &[u8], allow_unknown: bool) -> (r: Result<CompressionFormat, IoError>)
    ensures
        magic@.len() < 4 ==> (r matches Err(e) && e@ == IoErrorKind::UnexpectedEof),
        magic@.len() >= 4 && magic@[0] == 0x78 && (magic@[1] == 0x01 || magic@[1] == 0x5e
            || magic@[1] == 0x9c || magic@[1] == 0xda) ==> r == Ok::<_, IoError>(
            CompressionFormat::DeflateZlib,
        ),
        magic@.len() >= 4 ==> match format_for_magic(magic@) {
            Some(f) => r == Ok::<_, IoError>(f),
            None => if allow_unknown {
                r == Ok::<_, IoError>(CompressionFormat::Raw)
            } else {
                (r matches Err(e) && e@ == IoErrorKind::InvalidData)
            },
        },
{
    if magic.len() < 4 {
        return Err(IoError::new(IoErrorKind::UnexpectedEof));
    }
    let (a, b, c, d) = (magic[0], magic[1], magic[2], magic[3]);
    if a == 0x78 && (b == 0x01 || b == 0x5e || b == 0x9c || b == 0xda) {
        Ok(CompressionFormat::DeflateZlib)
    } else if a == 0x1f && b == 0x8b {
        Ok(CompressionFormat::Gzip)
    } else if (a == 0x28 && b == 0xb5 && c == 0x2f && d == 0xfd) || (a == 0x37 && b == 0xa4 && c
        == 0x30 && d == 0xec) {
        Ok(CompressionFormat::Zstd)
    } else if allow_unknown {
        Ok(CompressionFormat::Raw)
    } else {
        Err(IoError::new(IoErrorKind::InvalidData))
    }
}

/// Specifies a compression level.
#[derive(Debug, Clone, Copy, PartialEq, Eq, Structural)]
pub enum CompressionLevel {
    /// Fastest speed but with low compression ratio.
    Fast,
    /// Default level specified by the codec.
    CodecDefault,
    /// Recommended balanced ratio of speed and compression.
    ///
    /// Default value.
    Optimal,
    /// Almost best compression ratio at the cost of slow speed.
    High,
}

impl Default for CompressionLevel {
    fn default() -> (r: Self)
        ensures
            r == CompressionLevel::Optimal,
    {
        CompressionLevel::Optimal
    }
}

/// The codec's own level number for a level and a format.
pub open spec fn level_number(level: CompressionLevel, format: CompressionFormat) -> i32 {
    match format {
        CompressionFormat::Raw => 0,
        CompressionFormat::Gzip | CompressionFormat::DeflateRaw | CompressionFormat::DeflateZlib => {
            match level {
                CompressionLevel::Fast => 1,
                CompressionLevel::CodecDefault => 6,
                CompressionLevel::Optimal => 9,
                CompressionLevel::High => 9,
            }
        },
        CompressionFormat::Brotli => match level {
            CompressionLevel::Fast => 1,
            CompressionLevel::CodecDefault => 11,
            CompressionLevel::Optimal => 5,
            CompressionLevel::High => 11,
        },
        CompressionFormat::Zstd => match level {
            CompressionLevel::Fast => 1,
            CompressionLevel::CodecDefault => 3,
            CompressionLevel::Optimal => 3,
            CompressionLevel::High => 19,
        },
    }
}

impl CompressionLevel {
    /// Returns the codec's level number for this level and `format`.
    pub fn get_int_for_format(&self, format: CompressionFormat) -> (r: i32)
        ensures
            r == level_number(*self, format),
    {
        match format {
            CompressionFormat::Raw => 0,
            CompressionFormat::Gzip | CompressionFormat::DeflateRaw
            | CompressionFormat::DeflateZlib => match self {
                CompressionLevel::Fast => 1,
                CompressionLevel::CodecDefault => 6,
                CompressionLevel::Optimal => 9,
                CompressionLevel::High => 9,
            },
            CompressionFormat::Brotli => match self {
                CompressionLevel::Fast => 1,
                CompressionLevel::CodecDefault => 11,
                CompressionLevel::Optimal => 5,
                CompressionLevel::High => 11,
            },
            CompressionFormat::Zstd => match self {
                CompressionLevel::Fast => 1,
                CompressionLevel::CodecDefault => 3,
                CompressionLevel::Optimal => 3,
                CompressionLevel::High => 19,
            },
        }
    }
}


/// The buffer size of the Brotli codec.
pub const BROTLI_BUFFER_SIZE: usize = 4096;

/// The window size (base-2 logarithm) of the Brotli encoder.
pub const BROTLI_WINDOW: u32 = 22;

/// What decoding `data` in `format` gives: the data itself for `Raw`,
/// `None` where the codec rejects the data.
pub open spec fn spec_decoded(format: CompressionFormat, data: Seq<u8>) -> Option<Seq<u8>> {
    match format {
        CompressionFormat::Raw => Some(data),
        CompressionFormat::DeflateRaw => deflate_raw_decoded(data),
        CompressionFormat::DeflateZlib => zlib_decoded(data),
        CompressionFormat::Gzip => gzip_decoded(data),
        CompressionFormat::Brotli => brotli_decoded(data, BROTLI_BUFFER_SIZE),
        CompressionFormat::Zstd => zstd_decoded(data),
    }
}

/// What encoding `data` in `format` at `level` gives: the data itself for
/// `Raw`, `None` where the codec fails.
pub open spec fn spec_encoded(format: CompressionFormat, level: CompressionLevel, data: Seq<u8>) -> Option<Seq<u8>> {
    let n = level_number(level, format);
    match format {
        CompressionFormat::Raw => Some(data),
        CompressionFormat::DeflateRaw => deflate_raw_encoded(data, n as u32),
        CompressionFormat::DeflateZlib => zlib_encoded(data, n as u32),
        CompressionFormat::Gzip => gzip_encoded(data, n as u32),
        CompressionFormat::Brotli => brotli_encoded(data, BROTLI_BUFFER_SIZE, n as u32, BROTLI_WINDOW),
        CompressionFormat::Zstd => zstd_encoded(data, n),
    }
}

/// Decodes all of `data` in `format`.
fn decode_bytes(format: CompressionFormat, data: &[u8]) -> (r: Option<Vec<u8>>)
    ensures
        r matches Some(v) ==> spec_decoded(format, data@) == Some(v@),
        r is None ==> spec_decoded(format, data@) is None,
{
    match format {
        CompressionFormat::Raw => {
            let mut v: Vec<u8> = Vec::new();
            v.extend_from_slice(data);
            Some(v)
        },
        CompressionFormat::DeflateRaw => decode_deflate_raw(data),
        CompressionFormat::DeflateZlib => decode_zlib(data),
        CompressionFormat::Gzip => decode_gzip(data),
        CompressionFormat::Brotli => decode_brotli(data, BROTLI_BUFFER_SIZE),
        CompressionFormat::Zstd => decode_zstd(data),
    }
}

/// Encodes all of `data` in `format` at `level`.
fn encode_bytes(format: CompressionFormat, level: CompressionLevel, data: &[u8]) -> (r: Option<Vec<u8>>)
    ensures
        r matches Some(v) ==> spec_encoded(format, level, data@) == Some(v@),
        r is None ==> spec_encoded(format, level, data@) is None,
{
    let n = level.get_int_for_format(format);
    match format {
        CompressionFormat::Raw => {
            let mut v: Vec<u8> = Vec::new();
            v.extend_from_slice(data);
            Some(v)
        },
        CompressionFormat::DeflateRaw => encode_deflate_raw(data, n as u32),
        CompressionFormat::DeflateZlib => encode_zlib(data, n as u32),
        CompressionFormat::Gzip => encode_gzip(data, n as u32),
        CompressionFormat::Brotli => encode_brotli(data, BROTLI_BUFFER_SIZE, n as u32, BROTLI_WINDOW),
        CompressionFormat::Zstd => encode_zstd(data, n),
    }
}


/// The bytes that a decoder for `format` yields from a source that yields
/// `data` and then fails (`fails`) or ends, and whether reading then fails.
///
/// `Raw` passes the source through. Any other format decodes the whole of
/// the data: nothing, and a failure, when the source fails or the codec
/// rejects the data; else the decoded bytes, as far as a `u64` counts them.
pub open spec fn decoded_stream(format: CompressionFormat, data: Seq<u8>, fails: bool) -> (Seq<u8>, bool) {
    if format == CompressionFormat::Raw {
        (data, fails)
    } else if fails {
        (Seq::empty(), true)
    } else {
        match spec_decoded(format, data) {
            Some(d) => if d.len() <= u64::MAX {
                (d, false)
            } else {
                (Seq::empty(), true)
            },
            None => (Seq::empty(), true),
        }
    }
}

/// How far a decompressor has got with its source.
enum DecodeState {
    /// Nothing has been read yet.
    Unread,
    /// The source has been decoded; the output is read from memory.
    Decoded(MemReader),
    /// The source failed or its data was rejected.
    Failed,
}

/// Decompression of Zlib/Deflate, Gzip, Brotli, and Zstd files.
///
/// A raw stream is passed through. For a compressed format, the first read
/// takes all the data of the source and decodes it; the output is then
/// read from memory.
pub struct Decompressor<S: ByteRead> {
    source: PeekReader<S>,
    format: CompressionFormat,
    state: DecodeState,
    raw_count: u64,
}

/// Whether `d` is a fresh decompressor for `format` over a source that
/// yields `data` and then fails (`fails`) or ends.
pub open spec fn opened_as<S: ByteRead>(d: Decompressor<S>, format: CompressionFormat, data: Seq<u8>, fails: bool) -> bool {
    &&& d.inv()
    &&& d.spec_format() == format
    &&& d.spec_raw_count() == 0
    &&& (d.pending(), d.fails()) == decoded_stream(format, data, fails)
}

/// What opening a decompressor that recognizes the format by the first
/// four bytes of `data` gives.
pub open spec fn detected<S: ByteRead>(r: Result<Decompressor<S>, IoError>, data: Seq<u8>, fails: bool, allow_unknown: bool) -> bool {
    if data.len() < 4 {
        r is Err
    } else {
        match format_for_magic(data.take(4)) {
            Some(f) => r matches Ok(d) && opened_as(d, f, data, fails),
            None => if allow_unknown {
                r matches Ok(d) && opened_as(d, CompressionFormat::Raw, data, fails)
            } else {
                r matches Err(e) && e@ == IoErrorKind::InvalidData
            },
        }
    }
}

impl<S: ByteRead> Decompressor<S> {
    /// The wrapped stream.
    pub closed spec fn spec_source(&self) -> S {
        self.source.spec_inner()
    }

    /// The format that is decoded.
    pub closed spec fn spec_format(&self) -> CompressionFormat {
        self.format
    }

    /// The number of bytes read from the wrapped stream by reads.
    pub closed spec fn spec_raw_count(&self) -> nat {
        self.raw_count as nat
    }

    fn new_impl(stream: S, allow_unknown: bool) -> (r: Result<Self, IoError>)
        requires
            stream.inv(),
        ensures
            detected(r, stream.pending(), stream.fails(), allow_unknown),
    {
        let mut source = PeekReader::new(stream);
        let magic = source.peek(4)?;
        proof {
            source.lemma_pending_len();
        }
        let format = select_decoder(magic.as_slice(), allow_unknown)?;
        Ok(Decompressor { source, format, state: DecodeState::Unread, raw_count: 0 })
    }

    /// Open a compressed file.
    ///
    /// The format is recognized from the first four bytes; an error for
    /// unsupported or undetectable compression formats, and for a stream of
    /// fewer than four bytes.
    pub fn new(stream: S) -> (r: Result<Self, IoError>)
        requires
            stream.inv(),
        ensures
            detected(r, stream.pending(), stream.fails(), false),
    {
        Self::new_impl(stream, false)
    }

    /// Open a compressed file or contents unchanged for unsupported or undetectable formats.
    pub fn new_allow_unknown(stream: S) -> (r: Result<Self, IoError>)
        requires
            stream.inv(),
        ensures
            detected(r, stream.pending(), stream.fails(), true),
    {
        Self::new_impl(stream, true)
    }

    /// Open a compressed file with the given format.
    pub fn new_format(stream: S, format: CompressionFormat) -> (r: Result<Self, IoError>)
        requires
            stream.inv(),
        ensures
            r matches Ok(d) && opened_as(d, format, stream.pending(), stream.fails())
                && d.spec_source() == stream,
    {
        Ok(Self::with_format(stream, format))
    }

    /// A decompressor for `format` over `stream`.
    pub(crate) fn with_format(stream: S, format: CompressionFormat) -> (r: Self)
        requires
            stream.inv(),
        ensures
            opened_as(r, format, stream.pending(), stream.fails()),
            r.spec_source() == stream,
    {
        let source = PeekReader::new(stream);
        proof {
            source.lemma_pending_len();
        }
        Decompressor { source, format, state: DecodeState::Unread, raw_count: 0 }
    }

    /// The format that is decoded.
    pub(crate) fn format(&self) -> (r: CompressionFormat)
        ensures
            r == self.spec_format(),
    {
        self.format
    }

    /// Returns a reference to the wrapped stream.
    pub fn get_ref(&self) -> (r: &S)
        ensures
            *r == self.spec_source(),
    {
        self.source.get_ref()
    }

    /// Returns a mutable reference to the wrapped stream.
    ///
    /// Not offered for Brotli.
    pub fn get_mut(&mut self) -> (r: &mut S)
        requires
            old(self).spec_format() != CompressionFormat::Brotli,
        ensures
            *r == old(self).spec_source(),
            final(self).spec_source() == *final(r),
            final(self).spec_format() == old(self).spec_format(),
            final(self).spec_raw_count() == old(self).spec_raw_count(),
    {
        self.source.get_mut()
    }

    /// Returns the wrapped stream.
    pub fn into_inner(self) -> (r: S)
        ensures
            r == self.spec_source(),
    {
        self.source.into_inner()
    }

    /// Returns the number of bytes read from the wrapped stream.
    pub fn raw_input_read_count(&self) -> (r: u64)
        ensures
            r == self.spec_raw_count(),
    {
        self.raw_count
    }
}

impl<S: ByteRead> ByteRead for Decompressor<S> {
    closed spec fn inv(&self) -> bool {
        &&& self.source.inv()
        &&& self.raw_count + self.source.pending().len() <= u64::MAX
        &&& (self.format == CompressionFormat::Raw ==> self.state is Unread)
        &&& (self.state matches DecodeState::Decoded(m) ==> m.inv())
    }

    closed spec fn pending(&self) -> Seq<u8> {
        match self.state {
            DecodeState::Unread => decoded_stream(
                self.format,
                self.source.pending(),
                self.source.fails(),
            ).0,
            DecodeState::Decoded(m) => m.pending(),
            DecodeState::Failed => Seq::empty(),
        }
    }

    closed spec fn fails(&self) -> bool {
        match self.state {
            DecodeState::Unread => decoded_stream(
                self.format,
                self.source.pending(),
                self.source.fails(),
            ).1,
            DecodeState::Decoded(m) => m.fails(),
            DecodeState::Failed => true,
        }
    }

    closed spec fn reads_fully(&self) -> bool {
        false
    }

    proof fn lemma_pending_len(&self) {
        self.source.lemma_pending_len();
        if let DecodeState::Decoded(m) = self.state {
            m.lemma_pending_len();
        }
    }

    fn read(&mut self, buf: &mut [u8]) -> (r: Result<usize, IoError>) {
        if self.format == CompressionFormat::Raw {
            let n = self.source.read(buf)?;
            self.raw_count = self.raw_count + n as u64;
            return Ok(n);
        }
        let unread = match &self.state {
            DecodeState::Unread => true,
            _ => false,
        };
        if unread {
            let mut data: Vec<u8> = Vec::new();
            let res = read_to_end(&mut self.source, &mut data);
            assert(data@ =~= old(self).source.pending());
            self.raw_count = self.raw_count + data.len() as u64;
            if let Err(e) = res {
                self.state = DecodeState::Failed;
                return Err(e);
            }
            match decode_bytes(self.format, data.as_slice()) {
                Some(v) => {
                    let vl = v.len();
                    proof {
                        assert(v@.len() == vl);
                        assert(v@.len() <= u64::MAX);
                        assert(old(self).pending() == v@);
                    }
                    self.state = DecodeState::Decoded(MemReader::new(v));
                },
                None => {
                    self.state = DecodeState::Failed;
                    return Err(IoError::new(IoErrorKind::InvalidData));
                },
            }
        }
        match &mut self.state {
            DecodeState::Decoded(m) => m.read(buf),
            _ => Err(IoError::new(IoErrorKind::InvalidData)),
        }
    }
}

/// Compression of Zlib/Deflate, Gzip, Brotli, and Zstd files.
///
/// A raw stream is passed through. For a compressing format, the input is
/// held until [Compressor::finish] encodes it and writes it to the stream.
pub struct Compressor<S: ByteWrite> {
    stream: S,
    format: CompressionFormat,
    level: CompressionLevel,
    input: Vec<u8>,
}

impl<S: ByteWrite> Compressor<S> {
    /// The wrapped stream.
    pub closed spec fn spec_stream(&self) -> S {
        self.stream
    }

    /// The format that is encoded.
    pub closed spec fn spec_format(&self) -> CompressionFormat {
        self.format
    }

    /// The compression level.
    pub closed spec fn spec_level(&self) -> CompressionLevel {
        self.level
    }

    /// The input held for encoding; always empty for `Raw`.
    pub closed spec fn spec_input(&self) -> Seq<u8> {
        self.input@
    }

    /// Create a compressor with the given stream and codec options.
    pub fn new(stream: S, format: CompressionFormat, level: CompressionLevel) -> (r: Result<
        Self,
        IoError,
    >)
        ensures
            r matches Ok(c) && c.spec_stream() == stream && c.spec_format() == format
                && c.spec_level() == level && c.spec_input().len() == 0,
    {
        Ok(Compressor { stream, format, level, input: Vec::new() })
    }

    /// Returns a reference to the wrapped stream.
    pub fn get_ref(&self) -> (r: &S)
        ensures
            *r == self.spec_stream(),
    {
        &self.stream
    }

    /// Returns a mutable reference to the wrapped stream.
    pub fn get_mut(&mut self) -> (r: &mut S)
        ensures
            *r == old(self).spec_stream(),
            final(self).spec_stream() == *final(r),
            final(self).spec_format() == old(self).spec_format(),
            final(self).spec_level() == old(self).spec_level(),
            final(self).spec_input() == old(self).spec_input(),
    {
        &mut self.stream
    }

    /// Writes `buf` and returns its length.
    ///
    /// A raw stream writes it to the wrapped stream; any other format holds
    /// it for encoding.
    pub fn write(&mut self, buf: &[u8]) -> (r: Result<usize, IoError>)
        ensures
            final(self).spec_format() == old(self).spec_format(),
            final(self).spec_level() == old(self).spec_level(),
            old(self).spec_format() == CompressionFormat::Raw ==> {
                &&& final(self).spec_input() == old(self).spec_input()
                &&& final(self).spec_stream().write_fails() == old(self).spec_stream().write_fails()
                &&& !old(self).spec_stream().write_fails() ==> r == Ok::<usize, IoError>(buf@.len() as usize)
                    && final(self).spec_stream().written() == old(self).spec_stream().written() + buf@
                &&& old(self).spec_stream().write_fails() ==> r is Err
            },
            old(self).spec_format() != CompressionFormat::Raw ==> {
                &&& r == Ok::<usize, IoError>(buf@.len() as usize)
                &&& final(self).spec_input() == old(self).spec_input() + buf@
                &&& final(self).spec_stream() == old(self).spec_stream()
            },
    {
        if self.format == CompressionFormat::Raw {
            self.stream.write_all(buf)?;
        } else {
            self.input.extend_from_slice(buf);
        }
        Ok(buf.len())
    }

    /// Flushes the wrapped stream; input held for encoding stays held.
    pub fn flush(&mut self) -> (r: Result<(), IoError>)
        ensures
            final(self).spec_format() == old(self).spec_format(),
            final(self).spec_level() == old(self).spec_level(),
            final(self).spec_input() == old(self).spec_input(),
            final(self).spec_stream().write_fails() == old(self).spec_stream().write_fails(),
            !old(self).spec_stream().write_fails() ==> r is Ok && final(self).spec_stream().written()
                == old(self).spec_stream().written(),
            old(self).spec_stream().write_fails() ==> r is Err,
    {
        self.stream.flush()
    }

    /// Completes a compression file and returns the wrapped stream.
    ///
    /// The input held is encoded and written to the stream; a raw stream is
    /// returned as it is.
    pub fn finish(self) -> (r: Result<S, IoError>)
        ensures
            self.spec_format() == CompressionFormat::Raw ==> r == Ok::<S, IoError>(self.spec_stream()),
            self.spec_format() != CompressionFormat::Raw ==> match spec_encoded(
                self.spec_format(),
                self.spec_level(),
                self.spec_input(),
            ) {
                None => r is Err,
                Some(out) => if self.spec_stream().write_fails() {
                    r is Err
                } else {
                    r matches Ok(s) && s.written() == self.spec_stream().written() + out
                        && !s.write_fails()
                },
            },
    {
        let mut stream = self.stream;
        if self.format == CompressionFormat::Raw {
            return Ok(stream);
        }
        match encode_bytes(self.format, self.level, self.input.as_slice()) {
            Some(out) => {
                stream.write_all(out.as_slice())?;
                Ok(stream)
            },
            None => Err(IoError::new(IoErrorKind::Other)),
        }
    }
}

/// Lower-casing leaves a sequence without upper-case letters unchanged.
proof fn lemma_lower_chars_of_lower(s: Seq<char>)
    requires
        forall|i: int| 0 <= i < s.len() ==> !('A' <= #[trigger] s[i] <= 'Z'),
    ensures
        lower_chars(s) == s,
{
    assert(lower_chars(s) =~= s);
}

/// The coding name of a format names that format again, except for raw
/// DEFLATE: its name `deflate` stands for DEFLATE in a Zlib wrapper.
pub proof fn law_coding_name_names_format(f: CompressionFormat)
    requires
        f != CompressionFormat::DeflateRaw,
    ensures
        format_for_name(coding_name(f)) == Some(f),
{
    reveal_strlit("identity");
    reveal_strlit("deflate");
    reveal_strlit("gzip");
    reveal_strlit("x-gzip");
    reveal_strlit("gz");
    reveal_strlit("brotli");
    reveal_strlit("br");
    reveal_strlit("zstd");
    let n = coding_name(f);
    assert forall|i: int| 0 <= i < n.len() implies !('A' <= #[trigger] n[i] <= 'Z') by {
        assert('a' <= n[i] <= 'z');
    }
    lemma_lower_chars_of_lower(n);
    if f == CompressionFormat::Brotli {
        assert(n[0] != "gz"@[0]);
        assert(n != "gz"@);
    } else if f == CompressionFormat::Zstd {
        assert(n[0] != "gzip"@[0]);
        assert(n != "gzip"@);
    }
}

/// Every Zlib header that starts with the CM/CINFO byte 0x78 and has one of
/// the FLEVEL check bytes 0x01, 0x5e, 0x9c or 0xda selects Zlib, whatever
/// follows; these are the headers written at levels 1, 2 to 5, 6 and 7 to 9.
pub proof fn law_zlib_headers_select_zlib(m: Seq<u8>)
    requires
        m.len() >= 4,
        m[0] == 0x78,
        m[1] == 0x01 || m[1] == 0x5e || m[1] == 0x9c || m[1] == 0xda,
    ensures
        format_for_magic(m) == Some(CompressionFormat::DeflateZlib),
{
}

/// A Gzip header (0x1f 0x8b) selects Gzip and a Zstandard frame or
/// skippable-frame magic number selects Zstandard.
pub proof fn law_gzip_and_zstd_headers(m: Seq<u8>)
    requires
        m.len() >= 4,
    ensures
        m[0] == 0x1f && m[1] == 0x8b ==> format_for_magic(m) == Some(CompressionFormat::Gzip),
        m[0] == 0x28 && m[1] == 0xb5 && m[2] == 0x2f && m[3] == 0xfd ==> format_for_magic(m) == Some(
            CompressionFormat::Zstd,
        ),
{
}

/// The HTTP content coding names select their formats: `deflate` is
/// DEFLATE in a Zlib wrapper, `gzip` and `x-gzip` Gzip, `br` Brotli, `zstd`
/// Zstandard and `identity` none.
pub proof fn law_http_coding_names()
    ensures
        format_for_name("deflate"@) == Some(CompressionFormat::DeflateZlib),
        format_for_name("gzip"@) == Some(CompressionFormat::Gzip),
        format_for_name("x-gzip"@) == Some(CompressionFormat::Gzip),
        format_for_name("br"@) == Some(CompressionFormat::Brotli),
        format_for_name("zstd"@) == Some(CompressionFormat::Zstd),
        format_for_name("identity"@) == Some(CompressionFormat::Raw),
{
    law_coding_name_names_format(CompressionFormat::DeflateZlib);
    law_coding_name_names_format(CompressionFormat::Gzip);
    law_coding_name_names_format(CompressionFormat::Brotli);
    law_coding_name_names_format(CompressionFormat::Zstd);
    law_coding_name_names_format(CompressionFormat::Raw);
    reveal_strlit("x-gzip");
    reveal_strlit("identity");
    reveal_strlit("deflate");
    reveal_strlit("gzip");
    reveal_strlit("gz");
    let n = "x-gzip"@;
    assert forall|i: int| 0 <= i < n.len() implies !('A' <= #[trigger] n[i] <= 'Z') by {}
    lemma_lower_chars_of_lower(n);
}

} // verus!
