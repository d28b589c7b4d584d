use webaves::compress::{CompressionFormat, CompressionLevel, Compressor};
use webaves::header::HeaderMap;
use webaves::http::chunked::{parse_chunk_metadata, ChunkedDecoder, ChunkedReader};
use webaves::http::field::{parse_comma_list, HeaderMapExt};
use webaves::http::header;
use webaves::http::pc::{
    parse_chunk_line, parse_chunk_line_fallback, parse_parameter, parse_quoted_string,
    parse_request_line, parse_status_line,
};
use webaves::http::reader::{
    get_compression_format, is_chunked, parse_content_length, parse_u64,
};
use webaves::http::util::cut_start_line;
use webaves::http::writer::MessageWriter;
use webaves::http::{
    url_to_request_target, ChunkedEncodingOption, CompressionOption, HTTPError, RequestHeader,
    RequestLine, RequestTarget, ResponseHeader, StatusLine,
};
use webaves::io::{ByteRead, ByteWrite, IoErrorKind, MemReader, ReadExt};
use webaves::weburl::UrlParts;

fn read_chunk(reader: &mut ChunkedDecoder<MemReader>, expected: &[u8]) {
    let mut buffer = Vec::new();
    let metadata = reader.begin_chunk().unwrap();
    assert_eq!(metadata.length, expected.len() as u64);

    let data_reader = reader.read_data();
    data_reader.read_to_end(&mut buffer).unwrap();
    assert_eq!(buffer, expected);

    reader.end_chunk().unwrap();
}

#[test]
fn test_decoder() {
    let body = MemReader::new(b"3\r\nabc\r\n5\r\nhello\r\n0\r\nk1:v2\r\n\r\n".to_vec());
    let mut reader = ChunkedDecoder::new(body);

    read_chunk(&mut reader, b"abc");
    read_chunk(&mut reader, b"hello");
    read_chunk(&mut reader, b"");

    let trailer = reader.read_trailer().unwrap();
    assert_eq!(trailer.get_str("k1"), Some("v2"));
}

#[test]
fn decoder_reports_early_end() {
    let body = MemReader::new(b"5\r\nab".to_vec());
    let mut reader = ChunkedDecoder::new(body);
    let metadata = reader.begin_chunk().unwrap();
    assert_eq!(metadata.length, 5);

    let mut buffer = Vec::new();
    reader.read_data().read_to_end(&mut buffer).unwrap();
    assert_eq!(buffer, b"ab");
    assert!(matches!(reader.end_chunk(), Err(HTTPError::UnexpectedEnd)));
}

#[test]
fn decoder_rejects_bad_size_line() {
    let body = MemReader::new(b"zz\r\n".to_vec());
    let mut reader = ChunkedDecoder::new(body);

    assert!(matches!(reader.begin_chunk(), Err(HTTPError::InvalidEncoding { .. })));
}

#[test]
fn test_parse_chunk_metadata() {
    let metadata = parse_chunk_metadata(b"0a\n").unwrap();
    assert_eq!(metadata.length, 10);

    let metadata = parse_chunk_metadata(b"0a;k1=v1\n").unwrap();
    assert_eq!(metadata.length, 10);
    assert_eq!(metadata.parameters[0].0, "k1");
    assert_eq!(metadata.parameters[0].1, "v1");
}

#[test]
fn parse_chunk_metadata_falls_back_to_size() {
    let metadata = parse_chunk_metadata(b"05 \x00\r\n").unwrap();
    assert_eq!(metadata.length, 5);
    assert!(metadata.parameters.is_empty());

    assert!(parse_chunk_metadata(b"\r\n").is_err());
}

#[test]
fn test_reader() {
    let body = MemReader::new(b"3\r\nabc\r\n5\r\nhello\r\n0\r\nk1:v2\r\n\r\n".to_vec());
    let mut reader = ChunkedReader::new(body);

    let mut output = Vec::new();
    reader.read_to_end(&mut output).unwrap();

    assert_eq!(output, b"abchello");
}

#[test]
fn chunked_reader_small_reads() {
    let body = MemReader::new(b"3\r\nabc\r\n5\r\nhello\r\n0\r\n\r\nrest".to_vec());
    let mut reader = ChunkedReader::new(body);
    let mut output = Vec::new();
    let mut buf = [0u8; 2];

    loop {
        let n = reader.read(&mut buf).unwrap();
        if n == 0 {
            break;
        }
        output.extend_from_slice(&buf[..n]);
    }

    assert_eq!(output, b"abchello");
    assert_eq!(reader.into_inner().get_ref(), b"3\r\nabc\r\n5\r\nhello\r\n0\r\n\r\nrest");
}

#[test]
fn chunked_reader_stops_at_truncated_body() {
    let body = MemReader::new(b"3\r\nab".to_vec());
    let mut reader = ChunkedReader::new(body);
    let mut output = Vec::new();

    assert_eq!(reader.read_to_end(&mut output).unwrap(), 2);
    assert_eq!(output, b"ab");
}

#[test]
fn chunked_reader_error_on_bad_size_line() {
    let body = MemReader::new(b"3\r\nabc\r\nxyz\r\n".to_vec());
    let mut reader = ChunkedReader::new(body);
    let mut output = Vec::new();

    assert!(reader.read_to_end(&mut output).is_err());
    assert!(reader.read_to_end(&mut output).is_err());
}

#[test]
fn header_test_parse_request() {
    let input = "GET /index.html HTTP/1.0\r\nk1: v1\r\n\r\n";
    let request = header::RequestHeader::parse_from(input.as_bytes()).unwrap();

    assert_eq!(request.request_line.method, "GET");
    assert_eq!(request.request_line.target, "/index.html");
    assert_eq!(request.request_line.version, (1, 0));
    assert_eq!(request.fields.get_str("k1"), Some("v1"));
}

#[test]
fn header_test_format_request() {
    let mut request = header::RequestHeader::new("POST", "/api/create");
    request.fields.insert("k1", "v1");
    let mut buf = Vec::new();

    request.format(&mut buf).unwrap();

    assert_eq!(buf, b"POST /api/create HTTP/1.1\r\nk1: v1\r\n\r\n");
}

#[test]
fn header_request_line_has_no_line_ending() {
    let line = header::RequestLine::new("GET".to_string(), "/".to_string());
    let mut buf = Vec::new();

    line.format(&mut buf).unwrap();

    assert_eq!(buf, b"GET / HTTP/1.1");
}

#[test]
fn request_test_parse_request() {
    let input = "GET /index.html HTTP/1.0\r\nk1: v1\r\n";
    let request = RequestHeader::parse_from(input.as_bytes()).unwrap();

    assert_eq!(request.request_line.method, "GET");
    assert_eq!(request.request_line.target, "/index.html");
    assert_eq!(request.request_line.version, (1, 0));
    assert_eq!(request.fields.get_str("k1"), Some("v1"));
}

#[test]
fn request_test_format_request() {
    let mut request = RequestHeader::new("POST", "/api/create");
    request.fields.insert("k1", "v1");
    let mut buf = Vec::new();

    request.format(&mut buf).unwrap();

    assert_eq!(buf, b"POST /api/create HTTP/1.1\r\nk1: v1\r\n");
}

#[test]
fn request_format_then_parse_round_trip() {
    let mut request = RequestHeader::new("PUT", "/x?y=1");
    request.fields.insert("Host", "example.com");
    let mut buf = Vec::new();
    request.format(&mut buf).unwrap();

    let parsed = RequestHeader::parse_from(&buf).unwrap();
    assert_eq!(parsed.request_line.method, "PUT");
    assert_eq!(parsed.request_line.target, "/x?y=1");
    assert_eq!(parsed.request_line.version, (1, 1));
    assert_eq!(parsed.fields.get_str("host"), Some("example.com"));
}

#[test]
fn request_with_bad_method_is_not_formatted() {
    let request = RequestHeader::new("GE T", "/");
    let mut buf = Vec::new();

    let result = request.format(&mut buf);
    assert!(matches!(result, Err(HTTPError::InvalidStartLine { source: None })));
    assert!(buf.is_empty());
}

#[test]
fn request_parse_errors() {
    let result = RequestHeader::parse_from(b"GET /index.html\r\n");
    assert!(matches!(result, Err(HTTPError::InvalidStartLine { .. })));

    let result = RequestHeader::parse_from(b"GET / HTTP/1.1\r\nk1\r\n");
    assert!(matches!(result, Err(HTTPError::MalformedHeader { .. })));
}

#[test]
fn request_line_to_string() {
    let line = RequestLine::new("GET".to_string(), "/a".to_string());
    assert_eq!(line.to_string(), "GET /a HTTP/1.1");
}

#[test]
fn response_parse_and_format() {
    let input = b"HTTP/1.1 404 Not Found\r\nk1: v1\r\n\r\n";
    let response = ResponseHeader::parse_from(input).unwrap();

    assert_eq!(response.status_line.version, (1, 1));
    assert_eq!(response.status_line.status_code, 404);
    assert_eq!(response.status_line.reason_phrase, "Not Found");
    assert_eq!(response.fields.get_str("k1"), Some("v1"));

    let mut buf = Vec::new();
    response.format(&mut buf).unwrap();
    assert_eq!(buf, b"HTTP/1.1 404 Not Found\r\nk1: v1\r\n\r\n");
}

#[test]
fn status_line_new_and_parse_errors() {
    let line = StatusLine::new(200);
    assert_eq!(line.to_string(), "HTTP/1.1 200 ");

    let result = StatusLine::parse_from(b"HTTP/1.1 abc OK\r\n");
    assert!(matches!(result, Err(HTTPError::InvalidStartLine { .. })));
}

#[test]
fn test_quoted_string() {
    let data = b"\"\"";
    let result = parse_quoted_string(data).unwrap();
    assert_eq!(result, "");

    let data = b"\"Hello world!\"";
    let result = parse_quoted_string(data).unwrap();
    assert_eq!(result, "Hello world!");

    let data = b"\" \\\" \"";
    let result = parse_quoted_string(data).unwrap();
    assert_eq!(result, " \" ");

    let data = b"\" \\\xF0\x9F\x98\x80 \"";
    let result = parse_quoted_string(data).unwrap();
    assert_eq!(result, " \u{1F600} ");
}

#[test]
fn quoted_string_errors_give_offsets() {
    assert_eq!(parse_quoted_string(b"abc").unwrap_err(), 0);
    assert_eq!(parse_quoted_string(b"\"abc").unwrap_err(), 4);

    let error = webaves::http::field::parse_quoted_string(b"\"abc").unwrap_err();
    assert_eq!(error.offset(), 4);
}

#[test]
fn test_parameter() {
    let data = b"k1=v1";
    let result = parse_parameter(data).unwrap();
    assert_eq!(result.0, "k1");
    assert_eq!(result.1, "v1");

    let data = b"k1 = v1";
    let result = parse_parameter(data).unwrap();
    assert_eq!(result.0, "k1");
    assert_eq!(result.1, "v1");

    let data = b"k1=\"hello world!\"";
    let result = parse_parameter(data).unwrap();
    assert_eq!(result.0, "k1");
    assert_eq!(result.1, "hello world!");
}

#[test]
fn field_parameter_error() {
    let error = webaves::http::field::parse_parameter(b"k1 v1").unwrap_err();
    assert_eq!(error.offset(), 3);
}

#[test]
fn test_parse_chunk_line_simple() {
    let (size, exts) = parse_chunk_line(b"05\r\n").unwrap();

    assert_eq!(size, 5);
    assert_eq!(exts.len(), 0);
}

#[test]
fn test_parse_chunk_line_exts() {
    let (size, exts) = parse_chunk_line(b"05 ; p1 ; p2=v2 ; p3 = \"v3\"\r\n").unwrap();

    assert_eq!(size, 5);
    assert_eq!(exts.len(), 3);

    assert_eq!(exts[0].0, "p1");
    assert_eq!(exts[0].1, "");
    assert_eq!(exts[1].0, "p2");
    assert_eq!(exts[1].1, "v2");
    assert_eq!(exts[2].0, "p3");
    assert_eq!(exts[2].1, "v3");
}

#[test]
fn test_parse_chunk_line_fallback() {
    let size = parse_chunk_line_fallback(b"05 \x00\r\n").unwrap();

    assert_eq!(size, 5);
}

#[test]
fn chunk_line_size_overflow_is_rejected() {
    assert!(parse_chunk_line(b"10000000000000000\r\n").is_none());
    assert_eq!(parse_chunk_line(b"ffffffffffffffff\r\n").unwrap().0, u64::MAX);
}

#[test]
fn pc_start_lines() {
    let line = parse_request_line(b"GET /a HTTP/1.1\r\n").unwrap();
    assert_eq!(line.method, b"GET");
    assert_eq!(line.request_target, b"/a");
    assert_eq!(line.http_version, (1, 1));

    assert_eq!(parse_request_line(b"GET /a\r\n").err(), Some(8));

    let line = parse_status_line(b"http/2 200 OK\n").unwrap();
    assert_eq!(line.http_version, (2, 0));
    assert_eq!(line.status_code, 200);
    assert_eq!(line.reason_phrase, b"OK");

    assert_eq!(parse_status_line(b"HTTP/1.1 200\r\n").err(), Some(12));
}

#[test]
fn cut_start_line_splits_after_line_ending() {
    let (line, rest) = cut_start_line(b"GET / HTTP/1.1\r\nk: v\r\n");
    assert_eq!(line, b"GET / HTTP/1.1\r\n");
    assert_eq!(rest, b"k: v\r\n");

    let (line, rest) = cut_start_line(b"no line ending");
    assert_eq!(line, b"no line ending");
    assert_eq!(rest, b"");
}

#[test]
fn comma_lists() {
    let list = parse_comma_list(b"abc, \"Hello world!\" ,, def").unwrap();
    assert_eq!(list, vec!["abc", "Hello world!", "def"]);

    let mut map = HeaderMap::new();
    map.append("Accept-Encoding", "GZIP, br");
    map.append("accept-encoding", "Zstd");
    assert_eq!(map.get_comma_list("accept-encoding"), vec!["gzip", "br", "zstd"]);
}

#[test]
fn content_length_rules() {
    let mut fields = HeaderMap::new();
    fields.insert("Content-Length", "42");
    assert_eq!(parse_content_length(&fields, None, None).unwrap(), Some(42));

    let head = RequestHeader::new("HEAD", "/");
    assert_eq!(parse_content_length(&fields, Some(&head), None).unwrap(), Some(0));

    let no_content = ResponseHeader::new(204);
    assert_eq!(parse_content_length(&fields, None, Some(&no_content)).unwrap(), Some(0));

    let ok = ResponseHeader::new(200);
    let empty = HeaderMap::new();
    assert_eq!(parse_content_length(&empty, None, Some(&ok)).unwrap(), None);
    assert_eq!(parse_content_length(&empty, None, None).unwrap(), Some(0));

    let mut chunked = HeaderMap::new();
    chunked.insert("Transfer-Encoding", "chunked");
    chunked.insert("Content-Length", "5");
    assert_eq!(parse_content_length(&chunked, None, None).unwrap(), None);

    let mut conflicting = HeaderMap::new();
    conflicting.append("Content-Length", "5");
    conflicting.append("Content-Length", "6");
    assert!(matches!(
        parse_content_length(&conflicting, None, None),
        Err(HTTPError::MalformedHeader { source: None })
    ));

    let mut bad = HeaderMap::new();
    bad.insert("Content-Length", "abc");
    assert!(matches!(
        parse_content_length(&bad, None, None),
        Err(HTTPError::MalformedHeader { source: Some(_) })
    ));
}

#[test]
fn parse_u64_values() {
    assert_eq!(parse_u64("0"), Some(0));
    assert_eq!(parse_u64("+18446744073709551615"), Some(u64::MAX));
    assert_eq!(parse_u64("18446744073709551616"), None);
    assert_eq!(parse_u64(""), None);
    assert_eq!(parse_u64("-1"), None);
}

#[test]
fn chunked_and_compression_options() {
    let mut fields = HeaderMap::new();
    assert!(!is_chunked(ChunkedEncodingOption::Auto, &fields));
    assert!(is_chunked(ChunkedEncodingOption::On, &fields));

    fields.insert("Transfer-Encoding", "gzip, chunked");
    assert!(is_chunked(ChunkedEncodingOption::Auto, &fields));
    assert!(!is_chunked(ChunkedEncodingOption::Off, &fields));

    assert_eq!(get_compression_format(CompressionOption::Auto, &fields), CompressionFormat::Gzip);
    assert_eq!(
        get_compression_format(CompressionOption::Disabled, &fields),
        CompressionFormat::Raw
    );
    assert_eq!(
        get_compression_format(CompressionOption::Manual(CompressionFormat::Zstd), &fields),
        CompressionFormat::Zstd
    );

    let mut encoded = HeaderMap::new();
    encoded.insert("Content-Encoding", "identity, br");
    assert_eq!(get_compression_format(CompressionOption::Auto, &encoded), CompressionFormat::Brotli);
}

#[test]
fn request_targets_from_url() {
    let url = UrlParts::parse("http://example.com:8080/a/b?c=d#frag").unwrap();

    assert_eq!(url_to_request_target(&url, RequestTarget::Origin), "/a/b?c=d");
    assert_eq!(
        url_to_request_target(&url, RequestTarget::Absolute),
        "http://example.com:8080/a/b?c=d#frag"
    );
    assert_eq!(url_to_request_target(&url, RequestTarget::Authority), "example.com:8080");
    assert_eq!(url_to_request_target(&url, RequestTarget::Asterisk), "*");

    let url = UrlParts::parse("https://example.com/").unwrap();
    assert_eq!(url_to_request_target(&url, RequestTarget::Authority), "example.com:443");
}

#[test]
fn writer_writes_message() {
    let mut writer = MessageWriter::new(Vec::new());
    let mut request = RequestHeader::new("GET", "/");
    request.fields.insert("Host", "example.com");

    writer.begin_request(&request).unwrap();
    writer.write_body().write_all(b"body").unwrap();
    writer.end_message().unwrap();

    assert_eq!(writer.into_inner(), b"GET / HTTP/1.1\r\nHost: example.com\r\n\r\nbody");
}

fn message_stream(data: &[u8]) -> webaves::io::ComboReader<MemReader> {
    webaves::io::ComboReader::new(MemReader::new(data.to_vec()))
}

#[test]
fn message_reader_reads_requests_in_sequence() {
    let data = b"POST /a HTTP/1.1\r\nContent-Length: 5\r\n\r\nhelloGET /b HTTP/1.1\r\n\r\n";
    let mut reader = webaves::http::reader::MessageReader::new(message_stream(data));

    let header = reader.begin_request().unwrap();
    assert_eq!(header.request_line.method, "POST");
    let mut body = Vec::new();
    reader.read_body().read_to_end(&mut body).unwrap();
    assert_eq!(body, b"hello");
    reader.end_message().unwrap();

    let header = reader.begin_request().unwrap();
    assert_eq!(header.request_line.target, "/b");
    let mut body = Vec::new();
    reader.read_body().read_to_end(&mut body).unwrap();
    assert!(body.is_empty());
    reader.end_message().unwrap();
}

#[test]
fn message_reader_chunked_response() {
    let mut compressor =
        Compressor::new(Vec::new(), CompressionFormat::Gzip, CompressionLevel::default()).unwrap();
    compressor.write(b"abc").unwrap();
    let gz = compressor.finish().unwrap();
    assert_ne!(gz, b"abc");

    let mut data =
        b"HTTP/1.1 200 OK\r\nTransfer-Encoding: chunked\r\nContent-Encoding: gzip\r\n\r\n".to_vec();
    data.extend_from_slice(format!("{:x}\r\n", gz.len()).as_bytes());
    data.extend_from_slice(&gz);
    data.extend_from_slice(b"\r\n0\r\n\r\n");
    let mut reader = webaves::http::reader::MessageReader::new(message_stream(&data));

    let header = reader.begin_response(None).unwrap();
    assert_eq!(header.status_line.status_code, 200);
    let body = reader.read_body();
    assert_eq!(body.compression_format(), CompressionFormat::Gzip);
    let mut output = Vec::new();
    body.read_to_end(&mut output).unwrap();
    assert_eq!(output, b"abc");
}

#[test]
fn message_reader_rejects_corrupt_content_coding() {
    let data = b"HTTP/1.1 200 OK\r\nContent-Length: 3\r\nContent-Encoding: gzip\r\n\r\nabc";
    let mut reader = webaves::http::reader::MessageReader::new(message_stream(data));

    reader.begin_response(None).unwrap();
    let mut output = Vec::new();
    let err = reader.read_body().read_to_end(&mut output).unwrap_err();
    assert_eq!(err.kind(), IoErrorKind::InvalidData);
    assert!(output.is_empty());
    reader.end_message().unwrap();
}

#[test]
fn message_reader_short_body_fails() {
    let data = b"HTTP/1.1 200 OK\r\nContent-Length: 10\r\n\r\nabc";
    let mut reader = webaves::http::reader::MessageReader::new(message_stream(data));

    reader.begin_response(None).unwrap();
    let mut output = Vec::new();
    assert!(reader.read_body().read_to_end(&mut output).is_err());
    assert_eq!(output, b"abc");
}

#[test]
fn message_reader_http_09_response() {
    let data = b"<html>hi</html>";
    let mut reader = webaves::http::reader::MessageReader::new(message_stream(data));

    let header = reader.begin_response(None).unwrap();
    assert_eq!(header.status_line.version, (0, 9));
    assert_eq!(header.status_line.status_code, 200);
    let mut output = Vec::new();
    reader.read_body().read_to_end(&mut output).unwrap();
    assert_eq!(output, data);
}

#[test]
fn message_reader_head_response_has_no_body() {
    let data = b"HTTP/1.1 200 OK\r\nContent-Length: 3\r\n\r\nHTTP/1.1 204 No Content\r\n\r\n";
    let mut reader = webaves::http::reader::MessageReader::new(message_stream(data));
    let request = RequestHeader::new("HEAD", "/");

    reader.begin_response(Some(&request)).unwrap();
    let mut output = Vec::new();
    reader.read_body().read_to_end(&mut output).unwrap();
    assert!(output.is_empty());
    reader.end_message().unwrap();

    let header = reader.begin_response(None).unwrap();
    assert_eq!(header.status_line.status_code, 204);
}

#[test]
fn message_reader_errors() {
    let mut reader =
        webaves::http::reader::MessageReader::new(message_stream(b"GET / HTTP/1.1\r\nk: v\r\n"));
    assert!(matches!(reader.begin_request(), Err(HTTPError::Io(_))));

    let mut reader =
        webaves::http::reader::MessageReader::new(message_stream(b"GET /\r\n\r\n"));
    assert!(matches!(reader.begin_request(), Err(HTTPError::InvalidStartLine { .. })));

    let mut reader = webaves::http::reader::MessageReader::new(message_stream(
        b"GET / HTTP/1.1\r\nContent-Length: x\r\n\r\n",
    ));
    assert!(matches!(reader.begin_request(), Err(HTTPError::MalformedHeader { .. })));

    let mut reader = webaves::http::reader::MessageReader::new(message_stream(b"\r\n"));
    assert!(matches!(reader.begin_request(), Err(HTTPError::InvalidStartLine { .. })));
}

#[test]
fn message_reader_options() {
    let data = b"HTTP/1.1 200 OK\r\nContent-Encoding: br\r\n\r\nabc";
    let mut reader = webaves::http::reader::MessageReader::new(message_stream(data));
    reader.set_chunked_encoding(ChunkedEncodingOption::Off);
    reader.set_compression(CompressionOption::Disabled);
    assert_eq!(reader.chunked_encoding(), ChunkedEncodingOption::Off);
    assert_eq!(reader.compression(), CompressionOption::Disabled);

    reader.begin_response(None).unwrap();
    assert_eq!(reader.read_body().compression_format(), CompressionFormat::Raw);
}

#[test]
fn status_line_format_then_parse() {
    let mut line = StatusLine::new(7);
    line.reason_phrase = "Caf\u{e9} ok".to_string();
    line.version = (2, 0);
    let mut buf = Vec::new();
    line.format(&mut buf).unwrap();
    assert_eq!(buf, "HTTP/2.0 007 Caf\u{e9} ok".as_bytes());
    buf.extend_from_slice(b"\r\n");

    let parsed = StatusLine::parse_from(&buf).unwrap();
    assert_eq!(parsed.version, (2, 0));
    assert_eq!(parsed.status_code, 7);
    assert_eq!(parsed.reason_phrase, "Caf\u{e9} ok");
}

#[test]
fn request_line_format_then_parse() {
    let line = RequestLine::new("OPTIONS".to_string(), "*".to_string());
    let mut buf = Vec::new();
    line.format(&mut buf).unwrap();
    assert_eq!(buf, b"OPTIONS * HTTP/1.1\r\n");

    let parsed = RequestLine::parse_from(&buf).unwrap();
    assert_eq!(parsed.method, "OPTIONS");
    assert_eq!(parsed.target, "*");
    assert_eq!(parsed.version, (1, 1));
}

#[test]
fn chunked_reader_decodes_multi_digit_sizes() {
    let data = "x".repeat(26);
    let body = format!("1a\r\n{data}\r\n2\r\nab\r\n0\r\n\r\nnext");
    let mut reader = ChunkedReader::new(MemReader::new(body.into_bytes()));
    let mut output = Vec::new();

    reader.read_to_end(&mut output).unwrap();

    assert_eq!(output, format!("{data}ab").into_bytes());
}

#[test]
fn response_header_format_then_parse() {
    let mut header = ResponseHeader::new(404);
    header.status_line.reason_phrase = "Not Found".to_string();
    header.fields.insert("Content-Type", "text/plain");
    header.fields.insert("X-Note", "caf\u{e9}");
    let mut buf = Vec::new();
    header.format(&mut buf).unwrap();
    assert_eq!(buf, "HTTP/1.1 404 Not Found\r\nContent-Type: text/plain\r\nX-Note: caf\u{e9}\r\n\r\n".as_bytes());

    let parsed = ResponseHeader::parse_from(&buf).unwrap();
    assert_eq!(parsed.status_line.status_code, 404);
    assert_eq!(parsed.status_line.reason_phrase, "Not Found");
    assert_eq!(parsed.fields.get_str("content-type"), Some("text/plain"));
    assert_eq!(parsed.fields.get_str("x-note"), Some("caf\u{e9}"));
}

#[test]
fn chunked_decoder_driven_through_read_to_end() {
    let mut decoder = ChunkedDecoder::new(MemReader::new(
        b"3\r\nabc\r\n5\r\nhello\r\n0\r\nk1:v2\r\n\r\n".to_vec(),
    ));
    for expected in [&b"abc"[..], &b"hello"[..], &b""[..]] {
        let metadata = decoder.begin_chunk().unwrap();
        assert_eq!(metadata.length, expected.len() as u64);
        let mut buffer = Vec::new();
        decoder.read_data().read_to_end(&mut buffer).unwrap();
        assert_eq!(buffer, expected);
        decoder.end_chunk().unwrap();
    }
    let trailer = decoder.read_trailer().unwrap();
    assert_eq!(trailer.get_str("k1"), Some("v2"));
    assert_eq!(decoder.into_inner().position(), 30);
}
