use webaves::header::{
    read_until_boundary, trim_trailing_crlf, FieldName, FieldPair, FieldValue, FieldValuesIter,
    FormatError, HeaderFormatter, HeaderMap, HeaderMapIter, HeaderParser,
};
use webaves::io::{IoErrorKind, MemReader};

fn texts(mut values: FieldValuesIter) -> Vec<String> {
    let mut list = Vec::new();
    while let Some(value) = values.next() {
        list.push(value.text.to_string());
    }
    list
}

fn pairs(mut iter: HeaderMapIter) -> Vec<&FieldPair> {
    let mut list = Vec::new();
    while let Some(pair) = iter.next() {
        list.push(pair);
    }
    list
}

#[test]
fn test_header_get_convenience() {
    let mut map = HeaderMap::new();

    map.insert("k1", "v1");
    map.insert("k2", "v2");

    assert_eq!(map.len(), 2);
    assert!(!map.is_empty());
    assert!(map.contains_key("k1"));
    assert!(map.contains_key("k2"));
    assert!(!map.contains_key("k3"));
    assert_eq!(map.get_str("k1"), Some("v1"));
    assert_eq!(map.get_str("k2"), Some("v2"));
    assert_eq!(map.get_str("k3"), None);
}

#[test]
fn test_header_map_uniques() {
    let mut map = HeaderMap::new();

    map.insert("k1", "v1");
    map.insert("k2", "v2");

    assert_eq!(map.len(), 2);
    assert_eq!(map.get("k1").map(|v| v.text.as_ref()), Some("v1"));
    assert_eq!(map.get("k2").map(|v| v.text.as_ref()), Some("v2"));

    map.insert("k2", "hello world");

    assert_eq!(map.len(), 2);
    assert_eq!(map.get("k1").map(|v| v.text.as_ref()), Some("v1"));
    assert_eq!(map.get("k2").map(|v| v.text.as_ref()), Some("hello world"));
}

#[test]
fn test_header_map_duplicates() {
    let mut map = HeaderMap::new();

    map.append("k1", "v1");
    map.append("k2", "v2");
    map.append("k1", "v3");
    map.append("k2", "v4");

    assert_eq!(map.len(), 4);
    assert_eq!(map.get("k1").map(|v| v.text.as_ref()), Some("v1"));
    assert_eq!(map.get("k2").map(|v| v.text.as_ref()), Some("v2"));
    assert_eq!(texts(map.get_all("k1")), vec!["v1", "v3"]);
    assert_eq!(texts(map.get_all("k2")), vec!["v2", "v4"]);

    map.insert("k1", "hello world");

    assert_eq!(map.len(), 3);
    assert_eq!(texts(map.get_all("k1")), vec!["hello world"]);
    assert_eq!(texts(map.get_all("k2")), vec!["v2", "v4"]);
}

#[test]
fn test_header_iter() {
    let mut map = HeaderMap::new();

    map.insert("k1", "v1");
    map.insert("k2", "v2");

    assert_eq!(map.len(), 2);

    let pairs = pairs(map.iter()).into_iter().map(|p| p.duplicate()).collect::<Vec<FieldPair>>();

    assert_eq!(pairs[0].name.text, "k1");
    assert_eq!(pairs[0].value.text, "v1");
    assert_eq!(pairs[1].name.text, "k2");
    assert_eq!(pairs[1].value.text, "v2");
}

#[test]
fn test_header_map_case_sensitivity() {
    let mut map = HeaderMap::new();

    map.insert("Hello-World", "v1");
    map.insert("hello-world", "v2");

    assert_eq!(map.len(), 1);
    assert_eq!(map.get("HELLO-WORLD").map(|v| v.text.as_ref()), Some("v2"));

    map.append("HELLO-world", "v3");

    assert_eq!(map.len(), 2);
    assert_eq!(texts(map.get_all("hello-WORLD")), vec!["v2", "v3"]);
}

#[test]
fn test_display() {
    let mut map = HeaderMap::new();

    map.insert("k1", "v1");
    map.insert("k2", "v2");

    let result = map.to_string();

    assert_eq!(result, "k1: v1\r\nk2: v2\r\n");
}

#[test]
fn test_reorder_front() {
    let mut map = HeaderMap::new();

    map.insert("k1", "v1");
    map.insert("Host", "example.com");
    map.append("Host", "example.net");
    map.reorder_front("host");

    let list = pairs(map.iter())
        .into_iter()
        .map(|pair| (pair.name.text.as_str(), pair.value.text.as_str()))
        .collect::<Vec<(&str, &str)>>();

    assert_eq!(list[0], ("Host", "example.com"));
    assert_eq!(list[1], ("Host", "example.net"));
    assert_eq!(list[2], ("k1", "v1"));
}

#[test]
fn reorder_front_keeps_map_when_name_absent() {
    let mut map = HeaderMap::new();

    map.insert("k1", "v1");
    map.insert("k2", "v2");
    map.reorder_front("k3");

    assert_eq!(map.to_string(), "k1: v1\r\nk2: v2\r\n");
}

#[test]
fn insert_removes_all_values_and_appends() {
    let mut map = HeaderMap::new();

    map.append("a", "1");
    map.append("b", "2");
    map.append("A", "3");
    map.insert("a", "4");

    assert_eq!(map.len(), 2);
    assert_eq!(map.to_string(), "b: 2\r\na: 4\r\n");
}

#[test]
fn field_pair_to_string() {
    let pair = FieldPair::new(
        FieldName::new("Key".to_string(), None),
        FieldValue::new("value".to_string(), None),
    );

    assert_eq!(pair.to_string(), "Key: value\r\n");
    assert_eq!(pair.name.normalized, "key");
}

#[test]
fn test_format() {
    let mut map = HeaderMap::new();

    map.insert("k1", "v1");

    let mut buf = Vec::new();
    let formatter = HeaderFormatter::new();

    formatter.format_header(&map, &mut buf).unwrap();

    assert_eq!(buf, b"k1: v1\r\n");
}

#[test]
fn test_format_lossless() {
    let mut map = HeaderMap::new();

    map.insert("k1", "v1\u{FFFD}\u{1055FF}");

    let mut buf = Vec::new();
    let mut formatter = HeaderFormatter::new();
    formatter.lossless_scheme(true);

    formatter.format_header(&map, &mut buf).unwrap();

    assert_eq!(buf, b"k1: v1\xff\r\n");
}

#[test]
fn test_format_raw() {
    let mut map = HeaderMap::new();

    map.insert("k1", "v1");

    map.insert(
        FieldName::new("k2".to_string(), Some(b"K2".to_vec())),
        FieldValue::new("v2".to_string(), Some(b"\tv2".to_vec())),
    );

    let mut buf = Vec::new();
    let mut formatter = HeaderFormatter::new();
    formatter.use_raw(true);

    formatter.format_header(&map, &mut buf).unwrap();
    assert_eq!(buf, b"k1: v1\r\nK2:\tv2\r\n");
}

#[test]
fn test_format_invalid_key() {
    let mut map = HeaderMap::new();

    map.insert("k1:", "v1");

    let mut buf = Vec::new();
    let mut formatter = HeaderFormatter::new();

    let result = formatter.format_header(&map, &mut buf);
    assert!(result.is_err());

    buf.clear();
    formatter.disable_validation(true);
    formatter.format_header(&map, &mut buf).unwrap();
    assert_eq!(buf, b"k1:: v1\r\n");
}

#[test]
fn test_format_invalid_value() {
    let mut map = HeaderMap::new();

    map.insert("k1", "v1\n");

    let mut buf = Vec::new();
    let mut formatter = HeaderFormatter::new();

    let result = formatter.format_header(&map, &mut buf);
    assert!(result.is_err());

    buf.clear();
    formatter.disable_validation(true);
    formatter.format_header(&map, &mut buf).unwrap();
    assert_eq!(buf, b"k1: v1\n\r\n");
}

#[test]
fn format_error_names_the_field_line() {
    let mut map = HeaderMap::new();

    map.insert("k1", "v1");
    map.insert("k 2", "v2");

    let mut buf = Vec::new();
    let formatter = HeaderFormatter::new();

    match formatter.format_header(&map, &mut buf) {
        Err(FormatError::Data(error)) => {
            assert_eq!(error.line(), 1);
            assert_eq!(error.name().map(|n| n.text.as_str()), Some("k 2"));
        }
        _ => panic!("expected an invalid field"),
    }
    assert_eq!(buf, b"k1: v1\r\n");
}

#[test]
fn format_returns_written_length() {
    let mut map = HeaderMap::new();

    map.insert("k1", "v1");
    map.insert("k2", "value");

    let mut buf = b"xx".to_vec();
    let count = HeaderFormatter::new().format_header(&map, &mut buf).unwrap();

    assert_eq!(count, 19);
    assert_eq!(buf, b"xxk1: v1\r\nk2: value\r\n");
}

#[test]
fn test_parse_ok() {
    let data = b"k1: v1\r\n";

    assert!(HeaderParser::new().parse_header(data).is_ok());
}

#[test]
fn test_parse_err() {
    let data = b"k1: v1\r\nk2";
    let error = HeaderParser::new().parse_header(data).unwrap_err();

    assert_eq!(error.offset(), 8);
}

#[test]
fn test_simple_header() {
    let data = b"k1: v1\r\n\
        k2: v2\r\n";
    let headers = HeaderParser::new().parse_header(data).unwrap();

    assert_eq!(headers.len(), 2);
    assert_eq!(headers.get_str("k1"), Some("v1"));
    assert_eq!(headers.get_str("k2"), Some("v2"));
}

#[test]
fn test_empty_value_header() {
    let data = b"k1:\r\n";
    let headers = HeaderParser::new().parse_header(data).unwrap();

    assert_eq!(headers.len(), 1);
    assert_eq!(headers.get_str("k1"), Some(""));
}

#[test]
fn test_folded_header() {
    let data = b"k1: Hello\r\n\
        \t \tworld!\r\n\
        k2: v2\r\n";
    let headers = HeaderParser::new().parse_header(data).unwrap();

    assert_eq!(headers.len(), 2);
    assert_eq!(headers.get_str("k1"), Some("Hello world!"));
    assert_eq!(headers.get_str("k2"), Some("v2"));
}

#[test]
fn test_quoted_string_header() {
    let data = b"k1: p1=\"v1, \"\r\n";
    let headers = HeaderParser::new().parse_header(data).unwrap();

    assert_eq!(headers.get_str("k1"), Some("p1=\"v1, \""));
}

#[test]
fn test_encoded_word_header() {
    let data = b"k1: [=?ISO-8859-1?Q?a?= / =?ISO-8859-1?Q?a?= =?ISO-8859-1?Q?a?=]\r\n";
    let headers = HeaderParser::new().parse_header(data).unwrap();

    assert_eq!(headers.get_str("k1"), Some("[a / aa]"));
}

#[test]
fn encoded_word_in_other_charset_is_decoded() {
    let data = b"k1: =?UTF-8?B?aMOpbGxv?=\r\n";
    let headers = HeaderParser::new().parse_header(data).unwrap();

    assert_eq!(headers.get_str("k1"), Some("h\u{e9}llo"));
}

#[test]
fn parse_keeps_raw_name_and_value() {
    let data = b"Key :  Value \r\n";
    let headers = HeaderParser::new().parse_header(data).unwrap();
    let pair = headers.iter().next().unwrap();

    assert_eq!(pair.name.text, "Key");
    assert_eq!(pair.name.raw.as_deref(), Some(&b"Key "[..]));
    assert_eq!(pair.value.text, "Value");
}

#[test]
fn parse_then_format_gives_the_fields_back() {
    let data = b"k1: v1\r\nk2: v2\r\n";
    let headers = HeaderParser::new().parse_header(data).unwrap();
    let mut buf = Vec::new();

    HeaderFormatter::new().format_header(&headers, &mut buf).unwrap();

    assert_eq!(buf, data);
}

#[test]
fn test_read_until_boundary_crlf() {
    let mut input = MemReader::new(b"a\r\nb\r\n\r\nc".to_vec());
    let mut output = Vec::new();
    let count = read_until_boundary(&mut input, &mut output, 9999).unwrap();

    assert_eq!(count, 8);
    assert_eq!(&output, b"a\r\nb\r\n\r\n");
    assert_eq!(input.position(), 8);
}

#[test]
fn test_read_until_boundary_lf() {
    let mut input = MemReader::new(b"a\nb\n\nc".to_vec());
    let mut output = Vec::new();
    let count = read_until_boundary(&mut input, &mut output, 9999).unwrap();

    assert_eq!(count, 5);
    assert_eq!(&output, b"a\nb\n\n");
    assert_eq!(input.position(), 5);
}

#[test]
fn test_read_until_boundary_eof() {
    let mut input = MemReader::new(b"a\r\nb\r\n".to_vec());
    let mut output = Vec::new();
    let result = read_until_boundary(&mut input, &mut output, 9999);

    assert!(result.is_err());
    assert_eq!(result.unwrap_err().kind(), IoErrorKind::UnexpectedEof);
}

#[test]
fn test_read_until_boundary_limit() {
    let mut input = MemReader::new(b"aaaaa\r\nbbbbb\r\n\r\nccccc".to_vec());
    let mut output = Vec::new();
    let result = read_until_boundary(&mut input, &mut output, 7);

    assert!(result.is_err());
    assert_eq!(result.unwrap_err().kind(), IoErrorKind::InvalidData);
}

#[test]
fn text_trim_trailing_crlf() {
    assert_eq!(trim_trailing_crlf(b"abc\r\n\r\n"), b"abc\r\n");
    assert_eq!(trim_trailing_crlf(b"abc\r\n"), b"abc");
    assert_eq!(trim_trailing_crlf(b"abc\n\n"), b"abc\n");
    assert_eq!(trim_trailing_crlf(b"abc\n"), b"abc");
}

#[test]
fn format_then_parse_gives_fields_back() {
    let mut map = HeaderMap::new();
    map.append("Key", "a=b ?c");
    map.append("Other-Key", "  padded  ");
    map.append("Empty", "");

    let mut buf = Vec::new();
    HeaderFormatter::new().format_header(&map, &mut buf).unwrap();
    let parsed = HeaderParser::new().parse_header(&buf).unwrap();
    let list = pairs(parsed.iter());

    assert_eq!(list.len(), 3);
    assert_eq!(list[0].name.raw.as_deref(), Some(&b"Key"[..]));
    assert_eq!(list[0].value.raw.as_deref(), Some(&b" a=b ?c"[..]));
    assert_eq!(list[0].value.text, "a=b ?c");
    assert_eq!(list[1].name.text, "Other-Key");
    assert_eq!(list[1].value.text, "padded");
    assert_eq!(list[2].value.text, "");
}

#[test]
fn name_lossy_text_replaces_non_token_characters() {
    let name = FieldName::new("k1:".to_string(), None);
    assert_eq!(name.to_text_lossy(), "k1\u{FFFD}");
    let name = FieldName::new("\u{141}a-b".to_string(), None);
    assert_eq!(name.to_text_lossy(), "\u{FFFD}a-b");
}
