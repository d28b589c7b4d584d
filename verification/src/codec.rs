//! Whole-buffer encoding and decoding with the DEFLATE (flate2), Brotli and
//! Zstandard codecs.
//!
//! What a codec makes of given bytes is given a name here, and each call
//! states that its result is that name applied to its arguments. The
//! decoders give `None` for data that they reject.
use std::io::{Read, Write};

use vstd::prelude::*;

verus! {

/// What a raw DEFLATE decoder makes of `data`.
pub uninterp spec fn deflate_raw_decoded(data: Seq<u8>) -> Option<Seq<u8>>;

/// What a Zlib decoder makes of `data`.
pub uninterp spec fn zlib_decoded(data: Seq<u8>) -> Option<Seq<u8>>;

/// What a multi-member Gzip decoder makes of `data`.
pub uninterp spec fn gzip_decoded(data: Seq<u8>) -> Option<Seq<u8>>;

/// What a Brotli decoder with the given buffer size makes of `data`.
pub uninterp spec fn brotli_decoded(data: Seq<u8>, buffer_size: usize) -> Option<Seq<u8>>;

/// What a Zstandard decoder makes of `data`.
pub uninterp spec fn zstd_decoded(data: Seq<u8>) -> Option<Seq<u8>>;

/// What a raw DEFLATE encoder at `level` makes of `data`.
pub uninterp spec fn deflate_raw_encoded(data: Seq<u8>, level: u32) -> Option<Seq<u8>>;

/// What a Zlib encoder at `level` makes of `data`.
pub uninterp spec fn zlib_encoded(data: Seq<u8>, level: u32) -> Option<Seq<u8>>;

/// What a Gzip encoder at `level` makes of `data`.
pub uninterp spec fn gzip_encoded(data: Seq<u8>, level: u32) -> Option<Seq<u8>>;

/// What a Brotli encoder with the given buffer size, quality and window
/// makes of `data`.
pub uninterp spec fn brotli_encoded(data: Seq<u8>, buffer_size: usize, quality: u32, lgwin: u32) -> Option<Seq<u8>>;

/// What a Zstandard encoder at `level` makes of `data`.
pub uninterp spec fn zstd_encoded(data: Seq<u8>, level: i32) -> Option<Seq<u8>>;

/// Decodes raw DEFLATE data.
///
/// Reads `flate2::bufread::DeflateDecoder` over `data` to its end; claims
/// that the output, or `None` on an error, is `deflate_raw_decoded(data)`.
#[verifier::external_body]
pub(crate) fn decode_deflate_raw(data: &[u8]) -> (r: Option<Vec<u8>>)
    ensures
        r matches Some(v) ==> deflate_raw_decoded(data@) == Some(v@),
        r is None ==> deflate_raw_decoded(data@) is None,
{
    let mut out = Vec::new();
    match flate2::bufread::DeflateDecoder::new(data).read_to_end(&mut out) {
        Ok(_) => Some(out),
        Err(_) => None,
    }
}

/// Decodes Zlib data.
///
/// Reads `flate2::bufread::ZlibDecoder` over `data` to its end; claims that
/// the output, or `None` on an error, is `zlib_decoded(data)`.
#[verifier::external_body]
pub(crate) fn decode_zlib(data: &[u8]) -> (r: Option<Vec<u8>>)
    ensures
        r matches Some(v) ==> zlib_decoded(data@) == Some(v@),
        r is None ==> zlib_decoded(data@) is None,
{
    let mut out = Vec::new();
    match flate2::bufread::ZlibDecoder::new(data).read_to_end(&mut out) {
        Ok(_) => Some(out),
        Err(_) => None,
    }
}

/// Decodes Gzip data of one or more members.
///
/// Reads `flate2::bufread::MultiGzDecoder` over `data` to its end; claims
/// that the output, or `None` on an error, is `gzip_decoded(data)`.
#[verifier::external_body]
pub(crate) fn decode_gzip(data: &[u8]) -> (r: Option<Vec<u8>>)
    ensures
        r matches Some(v) ==> gzip_decoded(data@) == Some(v@),
        r is None ==> gzip_decoded(data@) is None,
{
    let mut out = Vec::new();
    match flate2::bufread::MultiGzDecoder::new(data).read_to_end(&mut out) {
        Ok(_) => Some(out),
        Err(_) => None,
    }
}

/// Decodes Brotli data.
///
/// Reads `brotli::Decompressor` with `buffer_size` over `data` to its end;
/// claims that the output, or `None` on an error, is
/// `brotli_decoded(data, buffer_size)`.
#[verifier::external_body]
pub(crate) fn decode_brotli(data: &[u8], buffer_size: usize) -> (r: Option<Vec<u8>>)
    ensures
        r matches Some(v) ==> brotli_decoded(data@, buffer_size) == Some(v@),
        r is None ==> brotli_decoded(data@, buffer_size) is None,
{
    let mut out = Vec::new();
    match brotli::Decompressor::new(data, buffer_size).read_to_end(&mut out) {
        Ok(_) => Some(out),
        Err(_) => None,
    }
}

/// Decodes Zstandard data.
///
/// Calls `zstd::stream::decode_all` on `data`; claims that the output, or
/// `None` on an error, is `zstd_decoded(data)`.
#[verifier::external_body]
pub(crate) fn decode_zstd(data: &[u8]) -> (r: Option<Vec<u8>>)
    ensures
        r matches Some(v) ==> zstd_decoded(data@) == Some(v@),
        r is None ==> zstd_decoded(data@) is None,
{
    zstd::stream::decode_all(data).ok()
}

/// Encodes `data` as raw DEFLATE at `level` (at most 10).
///
/// Writes `data` to a `flate2::write::DeflateEncoder` over a `Vec` and
/// finishes it; claims that the output, or `None` on an error, is
/// `deflate_raw_encoded(data, level)`.
#[verifier::external_body]
pub(crate) fn encode_deflate_raw(data: &[u8], level: u32) -> (r: Option<Vec<u8>>)
    requires
        level <= 10,
    ensures
        r matches Some(v) ==> deflate_raw_encoded(data@, level) == Some(v@),
        r is None ==> deflate_raw_encoded(data@, level) is None,
{
    let mut e = flate2::write::DeflateEncoder::new(Vec::new(), flate2::Compression::new(level));
    e.write_all(data).ok()?;
    e.finish().ok()
}

/// Encodes `data` as Zlib at `level` (at most 10).
///
/// Writes `data` to a `flate2::write::ZlibEncoder` over a `Vec` and finishes
/// it; claims that the output, or `None` on an error, is
/// `zlib_encoded(data, level)`.
#[verifier::external_body]
pub(crate) fn encode_zlib(data: &[u8], level: u32) -> (r: Option<Vec<u8>>)
    requires
        level <= 10,
    ensures
        r matches Some(v) ==> zlib_encoded(data@, level) == Some(v@),
        r is None ==> zlib_encoded(data@, level) is None,
{
    let mut e = flate2::write::ZlibEncoder::new(Vec::new(), flate2::Compression::new(level));
    e.write_all(data).ok()?;
    e.finish().ok()
}

/// Encodes `data` as Gzip at `level` (at most 10).
///
/// Writes `data` to a `flate2::write::GzEncoder` over a `Vec` and finishes
/// it; claims that the output, or `None` on an error, is
/// `gzip_encoded(data, level)`.
#[verifier::external_body]
pub(crate) fn encode_gzip(data: &[u8], level: u32) -> (r: Option<Vec<u8>>)
    requires
        level <= 10,
    ensures
        r matches Some(v) ==> gzip_encoded(data@, level) == Some(v@),
        r is None ==> gzip_encoded(data@, level) is None,
{
    let mut e = flate2::write::GzEncoder::new(Vec::new(), flate2::Compression::new(level));
    e.write_all(data).ok()?;
    e.finish().ok()
}

/// Encodes `data` as Brotli.
///
/// Writes `data` to a `brotli::CompressorWriter` over a `Vec` with the given
/// buffer size, quality and window, then flushes it and takes the `Vec` out,
/// which finishes the stream; claims that the output, or `None` on an
/// error, is `brotli_encoded(data, buffer_size, quality, lgwin)`.
#[verifier::external_body]
pub(crate) fn encode_brotli(data: &[u8], buffer_size: usize, quality: u32, lgwin: u32) -> (r:
    Option<Vec<u8>>)
    ensures
        r matches Some(v) ==> brotli_encoded(data@, buffer_size, quality, lgwin) == Some(v@),
        r is None ==> brotli_encoded(data@, buffer_size, quality, lgwin) is None,
{
    let mut e = brotli::CompressorWriter::new(Vec::new(), buffer_size, quality, lgwin);
    e.write_all(data).ok()?;
    e.flush().ok()?;
    Some(e.into_inner())
}

/// Encodes `data` as Zstandard at `level`.
///
/// Calls `zstd::stream::encode_all` on `data`; claims that the output, or
/// `None` on an error, is `zstd_encoded(data, level)`.
#[verifier::external_body]
pub(crate) fn encode_zstd(data: &[u8], level: i32) -> (r: Option<Vec<u8>>)
    ensures
        r matches Some(v) ==> zstd_encoded(data@, level) == Some(v@),
        r is None ==> zstd_encoded(data@, level) is None,
{
    zstd::stream::encode_all(data, level).ok()
}

} // verus!
