use webaves::compress::{select_decoder, CompressionFormat, CompressionLevel};
use webaves::crypto::{hash_algorithm_by_name, normalize_hash_name, HashAlgorithm};
use webaves::dns::{domain_from, random_domain};
use webaves::download::{
    normalize_scheme, numbered_name, sanitize_component, url_to_path_buf, ConflictSearch,
};
use webaves::error::{Error, ParseError};
use webaves::http::HTTPError;
use webaves::io::IoErrorKind;
use webaves::net::NameBuilder;
use webaves::quest::{HttpQuest, ProtocolParameters, Quest, QuestId, QuestStatus};
use webaves::stringesc::{decode, encode};
use webaves::stringutil::{decode_and_trim_to_string, to_ascii_lowercase};
use webaves::weburl::UrlParts;

#[test]
fn test_decode() {
    let mut buffer = String::new();

    decode(
        b"abc\xef\
        \xfe\
        \xEF\xBF\xBDefg\
        \xEF\xBF\xBD",
        &mut buffer,
    );

    assert_eq!(
        buffer,
        "abc\u{FFFD}\u{1055ef}\
        \u{FFFD}\u{1055fe}\
        \u{FFFD}\u{105600}efg\
        \u{FFFD}\u{105600}"
    );
}

#[test]
fn test_decode_ascii() {
    let mut buffer = String::new();

    decode(b"hello", &mut buffer);

    assert_eq!(buffer, "hello");
}

#[test]
fn test_encode() {
    let mut buffer = Vec::new();

    encode(
        "abc\u{FFFD}\u{105512}\
        \u{FFFD}\u{1055fe}\
        \u{FFFD}\u{105600}\
        \u{FFFD}efg\
        \u{FFFD}",
        &mut buffer,
    );

    assert_eq!(
        buffer,
        b"abc\x12\
        \xfe\
        \xEF\xBF\xBD\
        \xEF\xBF\xBDefg\
        \xEF\xBF\xBD"
    );
}

#[test]
fn test_encode_ascii() {
    let mut buffer = Vec::new();

    encode("hello", &mut buffer);

    assert_eq!(buffer, b"hello");
}

#[test]
fn decode_then_encode_gives_bytes_back() {
    let data: &[u8] = b"a\xff\xc3\xa9\xe2\x82\xac\xf0\x9f\x98\x80\xed\xa0\x80\xc3z";
    let mut text = String::new();
    decode(data, &mut text);
    let mut bytes = Vec::new();
    encode(&text, &mut bytes);

    assert_eq!(bytes, data);
}

#[test]
fn decode_and_trim() {
    assert_eq!(decode_and_trim_to_string(b"  key \t"), "key");
    assert_eq!(to_ascii_lowercase("AbC-\u{e9}"), "abc-\u{e9}");
}

#[test]
fn test_normalize_hash_name() {
    assert_eq!(normalize_hash_name("Sha-1"), "sha1");
    assert_eq!(normalize_hash_name("SHA-256"), "sha256");
    assert_eq!(normalize_hash_name("BLAKE2s"), "blake2s");
}

#[test]
fn normalize_hash_name_keeps_other_hyphens() {
    assert_eq!(normalize_hash_name("SHA3-256"), "sha3-256");
    assert_eq!(normalize_hash_name("sha-2"), "sha-2");
}

#[test]
fn hash_algorithms_by_name() {
    assert_eq!(hash_algorithm_by_name("MD5"), Some(HashAlgorithm::Md5));
    assert_eq!(hash_algorithm_by_name("SHA-512"), Some(HashAlgorithm::Sha512));
    assert_eq!(hash_algorithm_by_name("sha3-384"), Some(HashAlgorithm::Sha3With384));
    assert_eq!(hash_algorithm_by_name("Blake2b"), Some(HashAlgorithm::Blake2b));
    assert_eq!(hash_algorithm_by_name("crc32"), None);
}

#[test]
fn compression_names() {
    assert_eq!(CompressionFormat::from_name("X-GZIP"), Some(CompressionFormat::Gzip));
    assert_eq!(CompressionFormat::from_name("br"), Some(CompressionFormat::Brotli));
    assert_eq!(CompressionFormat::from_name("deflate"), Some(CompressionFormat::DeflateZlib));
    assert_eq!(CompressionFormat::from_name("lzma"), None);
    assert_eq!(CompressionFormat::Zstd.as_coding_name_str(), "zstd");
    assert_eq!(CompressionFormat::DeflateRaw.as_coding_name_str(), "deflate");

    for format in [
        CompressionFormat::Raw,
        CompressionFormat::DeflateZlib,
        CompressionFormat::Gzip,
        CompressionFormat::Brotli,
        CompressionFormat::Zstd,
    ] {
        assert_eq!(CompressionFormat::from_name(format.as_coding_name_str()), Some(format));
    }
}

#[test]
fn decoder_selection_by_magic_bytes() {
    assert_eq!(select_decoder(b"\x1f\x8b\x08\x00", false).unwrap(), CompressionFormat::Gzip);
    assert_eq!(select_decoder(b"\x78\x9c\x01\x02", false).unwrap(), CompressionFormat::DeflateZlib);
    assert_eq!(select_decoder(b"\x28\xb5\x2f\xfd", false).unwrap(), CompressionFormat::Zstd);
    assert_eq!(select_decoder(b"abcd", true).unwrap(), CompressionFormat::Raw);
    assert_eq!(select_decoder(b"abcd", false).unwrap_err().kind(), IoErrorKind::InvalidData);
    assert_eq!(select_decoder(b"\x1f\x8b", true).unwrap_err().kind(), IoErrorKind::UnexpectedEof);
}

#[test]
fn compression_levels() {
    assert_eq!(CompressionLevel::default(), CompressionLevel::Optimal);
    assert_eq!(CompressionLevel::Optimal.get_int_for_format(CompressionFormat::Gzip), 9);
    assert_eq!(CompressionLevel::Optimal.get_int_for_format(CompressionFormat::Brotli), 5);
    assert_eq!(CompressionLevel::High.get_int_for_format(CompressionFormat::Zstd), 19);
    assert_eq!(CompressionLevel::Fast.get_int_for_format(CompressionFormat::Raw), 0);
}

#[test]
fn test_sanitize_component() {
    assert_eq!(sanitize_component(""), "_");
    assert_eq!(sanitize_component("."), "_");
    assert_eq!(sanitize_component(".."), "__");
    assert_eq!(sanitize_component("..."), "___");
    assert_eq!(sanitize_component("\x00"), "_");
    assert_eq!(sanitize_component("\x7f"), "_");
    assert_eq!(sanitize_component("\"* /: <> ?\\ |"), "__ __ __ __ _");
    assert_eq!(sanitize_component("file "), "file_");
    assert_eq!(sanitize_component("file."), "file_");
    assert_eq!(sanitize_component("nul"), "nul_");
    assert_eq!(sanitize_component("nul.txt"), "nul_.txt");
    assert_eq!(sanitize_component("nul.abc.txt"), "nul.abc.txt");
    assert_eq!(
        sanitize_component(&"\u{1F600}".repeat(200)),
        format!(
            "{}_{:016x}",
            "\u{1F600}".repeat(50),
            mx3::v3::hash("\u{1F600}".repeat(200).as_bytes(), 1)
        )
    );
}

#[test]
fn sanitize_component_dos_names() {
    assert_eq!(sanitize_component("com1"), "com1_");
    assert_eq!(sanitize_component("COM1"), "COM1");
    assert_eq!(sanitize_component("lpt9.log"), "lpt9_.log");
    assert_eq!(sanitize_component("com10"), "com10");
    assert_eq!(sanitize_component("a:b"), "a_b");
}

#[test]
fn test_url_to_path() {
    let url = UrlParts::parse("http://example.com/").unwrap();
    assert_eq!(url_to_path_buf(&url).join("/"), "http/example.com");

    let url = UrlParts::parse("https://example.com:8080/a/b/c.html").unwrap();
    assert_eq!(url_to_path_buf(&url).join("/"), "http/example.com,8080/a/b/c.html");

    let url = UrlParts::parse("http://|.com/123:456/").unwrap();
    assert_eq!(url_to_path_buf(&url).join("/"), "http/_.com/123_456");

    let url = UrlParts::parse("other:abc").unwrap();
    assert_eq!(url_to_path_buf(&url).join("/"), "other/abc");

    let url = UrlParts::parse("other:../abc").unwrap();
    assert_eq!(url_to_path_buf(&url).join("/"), "other/.._abc");
}

#[test]
fn url_to_path_with_query() {
    let url = UrlParts::parse("wss://example.com/x?a=b").unwrap();
    assert_eq!(url_to_path_buf(&url), vec!["ws", "example.com", "x", "a=b"]);
    assert_eq!(normalize_scheme("https"), "http");
    assert_eq!(normalize_scheme("ftp"), "ftp");
}

#[test]
fn url_parts() {
    let url = UrlParts::parse("HTTP://Example.COM/a//b").unwrap();
    assert_eq!(url.scheme, "http");
    assert_eq!(url.host.as_deref(), Some("example.com"));
    assert_eq!(url.port, None);
    assert_eq!(url.port_or_known_default(), Some(80));
    assert_eq!(url.path_segments().unwrap(), vec!["a", "", "b"]);

    assert!(UrlParts::parse("not a url").is_none());
    let url = UrlParts::parse("mailto:a@example.com").unwrap();
    assert!(url.path_segments().is_none());
    assert_eq!(url.port_or_known_default(), None);
}

#[test]
fn numbered_names() {
    assert_eq!(numbered_name("a.txt", 1), "a.txt_1");
    assert_eq!(numbered_name("x", 1234), "x_1234");
}

#[test]
fn test_random_domain() {
    let result = random_domain();

    assert!(result.len() > 20);
    assert!(result.len() < 60);
    assert!(result.contains('.'));
    assert!(result.ends_with(".net"));
}

#[test]
fn name_builder() {
    let name = NameBuilder::new().name("abc").build();
    assert_eq!(name, format!("{:016x}", mx3::v3::hash(b"abc", 1)));

    let name = NameBuilder::new().path(b"/tmp").current_dir(None).build();
    assert_eq!(name, format!("{:016x}_", mx3::v3::hash(b"/tmp", 1)));

    let name = NameBuilder::default().name("x").current_user().build();
    assert!(name.starts_with(&format!("{:016x}", mx3::v3::hash(b"x", 1))));
}

#[test]
fn quest_ids() {
    assert_eq!(QuestId::new(-42).to_string(), "-42");
    assert_eq!(QuestId::new(i64::MIN).to_string(), "-9223372036854775808");
    assert_eq!(QuestId::default().value(), 0);
    let _status = QuestStatus::default();
}

#[test]
fn parse_error_window_and_conversion() {
    let error = ParseError::at(b"0123456789abcdefghij", 12);
    assert_eq!(error.offset(), 12);
    assert_eq!(error.input(), b"456789abcdefghij");

    let error: Error = HTTPError::UnexpectedEnd.into();
    assert!(matches!(error, Error::Protocol(HTTPError::UnexpectedEnd)));
}

#[test]
fn fetch_error_text() {
    let error = webaves::fetch::FetchError::UnsupportedScheme("ftp".to_string());
    assert_eq!(error.to_string(), "unsupported scheme ftp");
}

#[test]
fn normalize_hash_name_twice() {
    for name in ["SHA-384", "Sha3-512", "MD5", "sha-1"] {
        let once = normalize_hash_name(name);
        assert_eq!(normalize_hash_name(&once), once);
    }
}

#[test]
fn quest_structure() {
    let root = Quest {
        id: QuestId::new(1),
        status: QuestStatus::default(),
        priority: 0,
        url: UrlParts::parse("http://example.com/").unwrap(),
        parent: None,
        depth: 0,
        protocol_parameters: ProtocolParameters::default(),
    };
    let child = Quest {
        id: QuestId::new(2),
        status: QuestStatus::New,
        priority: 5,
        url: UrlParts::parse("http://example.com/a.png").unwrap(),
        parent: Some(Box::new(root)),
        depth: 1,
        protocol_parameters: ProtocolParameters::Http(HttpQuest {
            is_object: Some(true),
            ..HttpQuest::default()
        }),
    };

    assert_eq!(child.parent.as_ref().unwrap().id.value(), 1);
    assert!(matches!(child.protocol_parameters, ProtocolParameters::Http(_)));
    assert!(matches!(
        ProtocolParameters::default(),
        ProtocolParameters::Unspecified
    ));
}

#[test]
fn name_builder_appends_user() {
    assert_eq!(NameBuilder::new().user("alice").user("_b").build(), "alice_b");
    let before = NameBuilder::new().name("x").build();
    let after = NameBuilder::new().name("x").current_user().build();
    assert!(after.len() > before.len());
    assert!(after.starts_with(&before));
}

#[test]
fn conflict_search_numbers_candidates() {
    let mut search = ConflictSearch::new("index.html", true);
    assert_eq!(search.candidate(), "index.html");
    assert_eq!(search.step(true, false).as_deref(), Some("index.html_1"));
    assert_eq!(search.step(true, true).as_deref(), Some("index.html_2"));
    assert_eq!(search.attempt(), 2);
    assert_eq!(search.step(false, false), None);
    assert_eq!(search.candidate(), "index.html_2");

    let mut search = ConflictSearch::new("dir", false);
    assert_eq!(search.step(true, false), None);
    assert_eq!(search.step(true, true).as_deref(), Some("dir_1"));
}

#[test]
fn domain_from_appends_net() {
    let label = ['a', 'B', '3'];
    assert_eq!(domain_from(&label), "aB3.net");
    assert_eq!(domain_from(&[]), ".net");
}
