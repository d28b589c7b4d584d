//! Parsed URLs: the parts that the library reads.
use vstd::prelude::*;

use crate::stringutil::{chars_to_string, str_eq, str_to_chars};

verus! {

/// Abstract contents of a [UrlParts].
pub struct UrlPartsView {
    /// The whole URL, serialized.
    pub serialization: Seq<char>,
    /// The scheme, lower-cased.
    pub scheme: Seq<char>,
    /// The host, if any.
    pub host: Option<Seq<char>>,
    /// The port, when given and not the scheme's default.
    pub port: Option<u16>,
    /// The path, percent-encoded.
    pub path: Seq<char>,
    /// The query string, if any, percent-encoded.
    pub query: Option<Seq<char>>,
}

/// The parts of a parsed URL.
#[derive(Debug)]
pub struct UrlParts {
    /// The whole URL, serialized.
    pub serialization: String,
    /// The scheme, lower-cased.
    pub scheme: String,
    /// The host, if any.
    pub host: Option<String>,
    /// The port, when given and not the scheme's default.
    pub port: Option<u16>,
    /// The path, percent-encoded.
    pub path: String,
    /// The query string, if any, percent-encoded.
    pub query: Option<String>,
}

/// The view of an optional string.
pub open spec fn opt_chars(o: Option<String>) -> Option<Seq<char>> {
    match o {
        Some(s) => Some(s@),
        None => None,
    }
}

impl View for UrlParts {
    type V = UrlPartsView;

    open spec fn view(&self) -> UrlPartsView {
        UrlPartsView {
            serialization: self.serialization@,
            scheme: self.scheme@,
            host: opt_chars(self.host),
            port: self.port,
            path: self.path@,
            query: opt_chars(self.query),
        }
    }
}

/// Result of the `url` crate parsing `input`: the parts of the URL, or
/// `None` when it is not a valid URL.
pub uninterp spec fn url_parse_result(input: Seq<char>) -> Option<UrlPartsView>;

/// Parses a URL with the `url` crate.
///
/// Calls `url::Url::parse` and reads the serialization, scheme, host, port,
/// path and query of the result; claims only that they are
/// `url_parse_result(input)`.
#[verifier::external_body]
fn parse_url(input: &str) -> (r: Option<UrlParts>)
    ensures
        match r {
            Some(u) => url_parse_result(input@) == Some(u@),
            None => url_parse_result(input@) is None,
        },
{
    match url::Url::parse(input) {
        Ok(u) => Some(UrlParts {
            serialization: u.as_str().to_owned(),
            scheme: u.scheme().to_owned(),
            host: u.host_str().map(str::to_owned),
            port: u.port(),
            path: u.path().to_owned(),
            query: u.query().map(str::to_owned),
        }),
        Err(_) => None,
    }
}

/// The pieces of `s` between the separator `sep`, in order.
pub open spec fn split_chars(s: Seq<char>, sep: char) -> Seq<Seq<char>>
    decreases s.len(),
{
    if s.len() == 0 {
        seq![seq![]]
    } else {
        let rest = split_chars(s.drop_first(), sep);
        if s[0] == sep {
            seq![seq![]] + rest
        } else {
            seq![seq![s[0]] + rest[0]] + rest.drop_first()
        }
    }
}

/// The default port of a scheme: 80 for http and ws, 443 for https and
/// wss, 21 for ftp.
pub open spec fn default_port(scheme: Seq<char>) -> Option<u16> {
    if scheme == "http"@ || scheme == "ws"@ {
        Some(80)
    } else if scheme == "https"@ || scheme == "wss"@ {
        Some(443)
    } else if scheme == "ftp"@ {
        Some(21)
    } else {
        None
    }
}

proof fn lemma_split_nonempty(s: Seq<char>, sep: char)
    ensures
        split_chars(s, sep).len() >= 1,
    decreases s.len(),
{
    if s.len() > 0 {
        lemma_split_nonempty(s.drop_first(), sep);
    }
}

/// Splits `s` at every `sep`.
pub fn split_at_char(s: &[char], sep: char) -> (r: Vec<String>)
    ensures
        r@.map_values(|x: String| x@) == split_chars(s@, sep),
{
    let mut pieces: Vec<String> = Vec::new();
    let mut current: Vec<char> = Vec::new();
    let mut i: usize = 0;
    proof {
        lemma_split_nonempty(s@, sep);
        assert(s@.skip(0) =~= s@);
        assert(split_chars(s@, sep) =~= seq![current@ + split_chars(s@, sep)[0]] + split_chars(
            s@,
            sep,
        ).drop_first());
    }
    while i < s.len()
        invariant
            i <= s@.len(),
            split_chars(s@, sep) == pieces@.map_values(|x: String| x@) + seq![
                current@ + split_chars(s@.skip(i as int), sep)[0],
            ] + split_chars(s@.skip(i as int), sep).drop_first(),
        decreases s@.len() - i,
    {
        let ghost t = s@.skip(i as int);
        let ghost rest = split_chars(s@.skip(i + 1), sep);
        proof {
            lemma_split_nonempty(s@.skip(i + 1), sep);
            assert(t.drop_first() =~= s@.skip(i + 1));
        }
        let ghost before = pieces@.map_values(|x: String| x@);
        if s[i] == sep {
            let piece = chars_to_string(current.as_slice());
            pieces.push(piece);
            current = Vec::new();
            proof {
                assert(pieces@.map_values(|x: String| x@) =~= before.push(piece@));
                assert(Seq::<char>::empty() + rest[0] =~= rest[0]);
                assert(rest =~= seq![rest[0]] + rest.drop_first());
            }
        } else {
            let ghost c0 = current@;
            current.push(s[i]);
            proof {
                assert(c0 + (seq![s@[i as int]] + rest[0]) =~= current@ + rest[0]);
            }
        }
        i = i + 1;
    }
    let piece = chars_to_string(current.as_slice());
    let ghost before = pieces@.map_values(|x: String| x@);
    pieces.push(piece);
    proof {
        assert(s@.skip(i as int) =~= Seq::<char>::empty());
        assert(current@ + Seq::<char>::empty() =~= current@);
        assert(pieces@.map_values(|x: String| x@) =~= before.push(piece@));
    }
    pieces
}

impl UrlParts {
    /// Parses `input` as a URL.
    pub fn parse(input: &str) -> (r: Option<UrlParts>)
        ensures
            match r {
                Some(u) => url_parse_result(input@) == Some(u@),
                None => url_parse_result(input@) is None,
            },
    {
        parse_url(input)
    }

    /// Returns the path segments, or `None` when the path does not start
    /// with a slash (a URL that cannot be a base).
    pub fn path_segments(&self) -> (r: Option<Vec<String>>)
        ensures
            match r {
                Some(v) => self@.path.len() > 0 && self@.path[0] == '/' && v@.map_values(
                    |x: String| x@,
                ) == split_chars(self@.path.drop_first(), '/'),
                None => !(self@.path.len() > 0 && self@.path[0] == '/'),
            },
    {
        let chars = str_to_chars(self.path.as_str());
        if chars.len() > 0 && chars[0] == '/' {
            let mut rest: Vec<char> = Vec::new();
            let mut i: usize = 1;
            while i < chars.len()
                invariant
                    1 <= i <= chars@.len(),
                    rest@ == chars@.subrange(1, i as int),
                decreases chars@.len() - i,
            {
                rest.push(chars[i]);
                i = i + 1;
                assert(rest@ =~= chars@.subrange(1, i as int));
            }
            assert(rest@ =~= self@.path.drop_first());
            Some(split_at_char(rest.as_slice(), '/'))
        } else {
            None
        }
    }

    /// Returns the port, or the scheme's default port when it has none.
    pub fn port_or_known_default(&self) -> (r: Option<u16>)
        ensures
            r == match self.port {
                Some(p) => Some(p),
                None => default_port(self.scheme@),
            },
    {
        proof {
            reveal_strlit("http");
            reveal_strlit("ws");
            reveal_strlit("https");
            reveal_strlit("wss");
            reveal_strlit("ftp");
        }
        match self.port {
            Some(p) => Some(p),
            None => {
                let scheme = self.scheme.as_str();
                if str_eq(scheme, "http") || str_eq(scheme, "ws") {
                    Some(80)
                } else if str_eq(scheme, "https") || str_eq(scheme, "wss") {
                    Some(443)
                } else if str_eq(scheme, "ftp") {
                    Some(21)
                } else {
                    None
                }
            },
        }
    }
}

} // verus!
