use webaves::io::{
    BufReadMoreExt, ByteBufRead, ByteRead, ComboReader, CountRead, IoErrorKind, MemReader,
    PeekRead, ReadExt, SourceCountRead,
};
use webaves::stream::{CountBufReader, CountReader, PeekReader};

#[test]
fn io_test_read_limit_until() {
    let mut input = MemReader::new(b"a\r\nb\r\n\r\nc".to_vec());
    let mut output = Vec::new();
    let count = input.read_limit_until(b'\n', &mut output, 9999).unwrap();

    assert_eq!(count, 3);
    assert_eq!(&output, b"a\r\n");
    assert_eq!(input.position(), 3);
}

#[test]
fn io_test_read_limit_until_eof() {
    let mut input = MemReader::new(b"abc".to_vec());
    let mut output = Vec::new();
    let count = input.read_limit_until(b'\n', &mut output, 9999).unwrap();

    assert_eq!(count, 3);
    assert_eq!(&output, b"abc");
    assert_eq!(input.position(), 3);
}

#[test]
fn io_test_read_limit_until_limit() {
    let mut input = MemReader::new(b"aaaaabbbbbccccc".to_vec());
    let mut output = Vec::new();
    let result = input.read_limit_until(b'\n', &mut output, 7);

    assert!(result.is_err());
    assert_eq!(result.unwrap_err().kind(), IoErrorKind::InvalidData);
}

#[test]
fn read_limit_until_delimiter_exactly_at_limit() {
    let mut input = MemReader::new(b"abc\ndef".to_vec());
    let mut output = Vec::new();
    let count = input.read_limit_until(b'\n', &mut output, 4).unwrap();

    assert_eq!(count, 4);
    assert_eq!(&output, b"abc\n");
}

#[test]
fn mem_reader_fill_and_consume() {
    let mut input = MemReader::from_slice(b"hello");
    assert_eq!(input.fill_buf().unwrap(), b"hello");
    input.consume(2);
    assert_eq!(input.position(), 2);

    let mut rest = Vec::new();
    assert_eq!(input.read_to_end(&mut rest).unwrap(), 3);
    assert_eq!(rest, b"llo");
    assert_eq!(input.into_inner(), b"hello");
}

#[test]
fn read_exact_past_end_fails() {
    let mut input = MemReader::new(b"ab".to_vec());
    let mut buf = [0u8; 3];
    let error = input.read_exact(&mut buf).unwrap_err();

    assert_eq!(error.kind(), IoErrorKind::UnexpectedEof);
}

#[test]
fn test_combo_reader_read() {
    let input = MemReader::new(b"0123456789abcdef".to_vec());
    let mut reader = ComboReader::new(input);
    let mut output = Vec::new();

    output.resize(2, 0);
    let amount = reader.read(&mut output).unwrap();
    assert_eq!(amount, 2);
    assert_eq!(output, b"01");
    assert_eq!(reader.buffer(), b"23456789abcdef");
    assert_eq!(reader.read_count(), 2);
    assert_eq!(reader.source_read_count(), 16);

    output.resize(4, 0);
    let amount = reader.read(&mut output).unwrap();
    assert_eq!(amount, 4);
    assert_eq!(output, b"2345");
    assert_eq!(reader.buffer(), b"6789abcdef");
    assert_eq!(reader.read_count(), 6);
    assert_eq!(reader.source_read_count(), 16);

    output.resize(100, 0);
    let amount = reader.read(&mut output).unwrap();
    assert_eq!(amount, 10);
    assert_eq!(&output[0..10], b"6789abcdef");
    assert_eq!(reader.buffer(), b"");
    assert_eq!(reader.read_count(), 16);
    assert_eq!(reader.source_read_count(), 16);

    let amount = reader.read(&mut output).unwrap();
    assert_eq!(amount, 0);
    assert_eq!(reader.buffer(), b"");
    assert_eq!(reader.read_count(), 16);
    assert_eq!(reader.source_read_count(), 16);
}

#[test]
fn test_combo_reader_bufread() {
    let input = MemReader::new(b"0123456789abcdef".to_vec());
    let mut reader = ComboReader::new(input);

    let buffer = reader.fill_buf().unwrap();
    assert_eq!(buffer, b"0123456789abcdef");
    assert_eq!(reader.read_count(), 0);
    assert_eq!(reader.source_read_count(), 16);

    reader.consume(4);
    assert_eq!(reader.buffer(), b"456789abcdef");
    assert_eq!(reader.read_count(), 4);
    assert_eq!(reader.source_read_count(), 16);

    let buffer = reader.fill_buf().unwrap();
    assert_eq!(buffer, b"456789abcdef");
    assert_eq!(reader.read_count(), 4);
    assert_eq!(reader.source_read_count(), 16);

    reader.consume(12);
    assert_eq!(reader.buffer(), b"");
    assert_eq!(reader.read_count(), 16);
    assert_eq!(reader.source_read_count(), 16);
}

#[test]
fn test_combo_reader_peek() {
    let input = MemReader::new(b"0123456789abcdef".to_vec());
    let mut reader = ComboReader::new(input);

    let output = reader.peek(4).unwrap();
    assert_eq!(output, b"0123");
    let output = reader.peek_exact(4).unwrap();
    assert_eq!(output, b"0123");

    let mut output = Vec::new();
    output.resize(6, 0);

    reader.read_exact(&mut output).unwrap();
    assert_eq!(output, b"012345");

    let output = reader.peek(4).unwrap();
    assert_eq!(output, b"6789");
    let output = reader.peek_exact(4).unwrap();
    assert_eq!(output, b"6789");

    let mut output = Vec::new();
    output.resize(6, 0);

    reader.read_exact(&mut output).unwrap();
    assert_eq!(output, b"6789ab");

    let result = reader.peek_exact(9999);
    assert!(result.is_err());
}

#[test]
fn test_combo_reader_big_read() {
    let mut input = Vec::new();

    for _ in 0..5000 {
        input.extend_from_slice(b"0123456789abcdef");
    }

    let input = MemReader::new(input);
    let mut reader = ComboReader::new(input);

    let mut output = Vec::new();
    output.resize(5000, 0);

    let amount = reader.read(&mut output).unwrap();
    assert_eq!(amount, 5000);
    assert_eq!(reader.read_count(), 5000);
    assert_eq!(reader.source_read_count(), 5000);
}

#[test]
fn combo_reader_counts_balance_with_buffer() {
    let input = MemReader::new(b"0123456789".to_vec());
    let mut reader = ComboReader::new(input);
    let mut output = [0u8; 3];

    reader.read(&mut output).unwrap();
    assert_eq!(
        reader.source_read_count(),
        reader.read_count() + reader.buffer().len() as u64
    );
    reader.peek(5).unwrap();
    assert_eq!(
        reader.source_read_count(),
        reader.read_count() + reader.buffer().len() as u64
    );
    assert_eq!(reader.into_inner().position(), 10);
}

#[test]
fn test_peek_reader() {
    let source = MemReader::new(b"0123456789abcdef".to_vec());
    let mut reader = PeekReader::new(source);
    let mut output = Vec::new();

    output.resize(2, 0);
    reader.read_exact(&mut output).unwrap();
    assert_eq!(output, b"01");
    assert_eq!(reader.buffer(), b"");

    assert_eq!(reader.peek(2).unwrap(), b"23");
    assert_eq!(reader.buffer(), b"23");

    output.resize(1, 0);
    reader.read_exact(&mut output).unwrap();
    assert_eq!(output, b"2");
    assert_eq!(reader.buffer(), b"3");

    output.resize(2, 0);
    reader.read_exact(&mut output).unwrap();
    assert_eq!(output, b"34");
    assert_eq!(reader.buffer(), b"");

    reader.read_exact(&mut output).unwrap();
    assert_eq!(output, b"56");

    assert_eq!(reader.peek(2).unwrap(), b"78");
    assert_eq!(reader.buffer(), b"78");
    assert_eq!(reader.peek(2).unwrap(), b"9a");
    assert_eq!(reader.buffer(), b"789a");

    output.resize(5, 0);
    reader.read_exact(&mut output).unwrap();
    assert_eq!(output, b"789ab");
    assert_eq!(reader.buffer(), b"");
}

#[test]
fn peek_reader_peek_past_end_fails() {
    let source = MemReader::new(b"01".to_vec());
    let mut reader = PeekReader::new(source);

    let err = reader.peek(3).unwrap_err();
    assert_eq!(err.kind(), IoErrorKind::UnexpectedEof);
    assert_eq!(reader.buffer(), b"01");

    let mut output = Vec::new();
    reader.read_to_end(&mut output).unwrap();
    assert_eq!(output, b"01");
}

#[test]
fn peek_reader_reads_from_buffer_first() {
    let mut reader = PeekReader::new(MemReader::new(b"0123456789".to_vec()));
    assert_eq!(reader.peek(4).unwrap(), b"0123");
    let mut output = [0u8; 10];
    assert_eq!(reader.read(&mut output).unwrap(), 4);
    assert_eq!(&output[..4], b"0123");
    assert_eq!(reader.buffer(), b"");
    assert_eq!(reader.read(&mut output).unwrap(), 6);
    assert_eq!(&output[..6], b"456789");
}

#[test]
fn mem_reader_position_follows_reads() {
    let mut reader = MemReader::new(b"abcdef".to_vec());
    let mut output = [0u8; 4];
    assert_eq!(reader.read(&mut output).unwrap(), 4);
    assert_eq!(reader.position(), 4);
    assert_eq!(reader.read(&mut output).unwrap(), 2);
    assert_eq!(reader.position(), 6);
}

#[test]
fn test_count_reader() {
    let source = MemReader::new(b"0123456789abcdef".to_vec());
    let mut reader = CountReader::new(source);
    let mut output = Vec::new();

    output.resize(5, 0);
    reader.read_exact(&mut output).unwrap();
    assert_eq!(5, reader.read_count());

    output.resize(6, 0);
    reader.read_exact(&mut output).unwrap();
    assert_eq!(11, reader.read_count());
}

#[test]
fn test_count_buf_reader() {
    let source = MemReader::new(b"0123456789abcdef".to_vec());
    let mut reader = CountBufReader::new(source);
    let mut output = Vec::new();

    output.resize(5, 0);
    reader.read_exact(&mut output).unwrap();
    assert_eq!(5, reader.read_count());

    output.resize(6, 0);
    reader.read_exact(&mut output).unwrap();
    assert_eq!(11, reader.read_count());
}

#[test]
fn count_buf_reader_counts_consumed_bytes() {
    let source = MemReader::new(b"0123456789".to_vec());
    let mut reader = CountBufReader::new(source);

    reader.fill_buf().unwrap();
    reader.consume(4);
    assert_eq!(reader.read_count(), 4);
}
