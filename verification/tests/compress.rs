use webaves::compress::{CompressionFormat, CompressionLevel, Compressor, Decompressor};
use webaves::io::{IoErrorKind, MemReader, ReadExt};

const TEXT: &[u8] = b"Hello world! Hello world! Hello world! Hello world! Hello world!";

fn compress(format: CompressionFormat, level: CompressionLevel, data: &[u8]) -> Vec<u8> {
    let mut compressor = Compressor::new(Vec::new(), format, level).unwrap();
    assert_eq!(compressor.write(&data[..10]).unwrap(), 10);
    assert_eq!(compressor.write(&data[10..]).unwrap(), data.len() - 10);
    compressor.flush().unwrap();
    compressor.finish().unwrap()
}

fn decompress_format(format: CompressionFormat, data: &[u8]) -> Vec<u8> {
    let mut decompressor = Decompressor::new_format(MemReader::from_slice(data), format).unwrap();
    let mut output = Vec::new();
    decompressor.read_to_end(&mut output).unwrap();
    assert_eq!(decompressor.raw_input_read_count(), data.len() as u64);
    output
}

#[test]
fn round_trip_every_format() {
    for format in [
        CompressionFormat::Raw,
        CompressionFormat::DeflateRaw,
        CompressionFormat::DeflateZlib,
        CompressionFormat::Gzip,
        CompressionFormat::Brotli,
        CompressionFormat::Zstd,
    ] {
        for level in [
            CompressionLevel::Fast,
            CompressionLevel::CodecDefault,
            CompressionLevel::Optimal,
            CompressionLevel::High,
        ] {
            let compressed = compress(format, level, TEXT);
            if format == CompressionFormat::Raw {
                assert_eq!(compressed, TEXT);
            } else {
                assert_ne!(compressed, TEXT);
            }
            assert_eq!(decompress_format(format, &compressed), TEXT);
        }
    }
}

#[test]
fn detects_format_from_magic_bytes() {
    for format in [CompressionFormat::DeflateZlib, CompressionFormat::Gzip, CompressionFormat::Zstd] {
        let compressed = compress(format, CompressionLevel::Optimal, TEXT);
        let mut decompressor = Decompressor::new(MemReader::new(compressed.clone())).unwrap();
        let mut output = Vec::new();
        decompressor.read_to_end(&mut output).unwrap();
        assert_eq!(output, TEXT);
        assert_eq!(decompressor.raw_input_read_count(), compressed.len() as u64);
    }
}

#[test]
fn unknown_format_is_refused_or_passed_through() {
    let err = Decompressor::new(MemReader::from_slice(b"plain text")).err().unwrap();
    assert_eq!(err.kind(), IoErrorKind::InvalidData);

    let mut decompressor = Decompressor::new_allow_unknown(MemReader::from_slice(b"plain text")).unwrap();
    let mut output = Vec::new();
    decompressor.read_to_end(&mut output).unwrap();
    assert_eq!(output, b"plain text");
    assert_eq!(decompressor.raw_input_read_count(), 10);
}

#[test]
fn short_stream_cannot_be_detected() {
    let err = Decompressor::new_allow_unknown(MemReader::from_slice(b"ab")).err().unwrap();
    assert_eq!(err.kind(), IoErrorKind::UnexpectedEof);
}

#[test]
fn corrupt_data_fails_to_decode() {
    let mut decompressor =
        Decompressor::new_format(MemReader::from_slice(b"\x1f\x8b\x08\x00garbage"), CompressionFormat::Gzip)
            .unwrap();
    let mut output = Vec::new();
    let err = decompressor.read_to_end(&mut output).unwrap_err();
    assert_eq!(err.kind(), IoErrorKind::InvalidData);
    assert!(output.is_empty());
}

#[test]
fn decompressor_gives_back_its_stream() {
    let compressed = compress(CompressionFormat::Zstd, CompressionLevel::Fast, TEXT);
    let mut decompressor =
        Decompressor::new_format(MemReader::new(compressed.clone()), CompressionFormat::Zstd).unwrap();
    assert_eq!(decompressor.get_ref().get_ref(), compressed.as_slice());
    assert_eq!(decompressor.get_mut().position(), 0);
    let mut output = Vec::new();
    decompressor.read_to_end(&mut output).unwrap();
    assert_eq!(decompressor.into_inner().position(), compressed.len() as u64);
}

#[test]
fn compressor_holds_input_until_finished() {
    let mut compressor =
        Compressor::new(Vec::new(), CompressionFormat::Gzip, CompressionLevel::Fast).unwrap();
    compressor.write(b"abc").unwrap();
    assert!(compressor.get_ref().is_empty());
    compressor.get_mut().extend_from_slice(b"x");
    let out = compressor.finish().unwrap();
    assert_eq!(out[0], b'x');
    assert_eq!(decompress_format(CompressionFormat::Gzip, &out[1..]), b"abc");

    let mut compressor =
        Compressor::new(Vec::new(), CompressionFormat::Raw, CompressionLevel::Fast).unwrap();
    compressor.write(b"abc").unwrap();
    assert_eq!(compressor.get_ref(), b"abc");
    assert_eq!(compressor.finish().unwrap(), b"abc");
}
