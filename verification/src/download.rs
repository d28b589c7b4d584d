//! URL and path tools related to downloading files.
use vstd::prelude::*;
use vstd::utf8::{encode_scalar, encode_utf8};

use crate::hashing::{hex16, hex_digits, mx3_hash, mx3_v3_hash, push_hex16};
use crate::num::{ascii_chars, dec_digits, push_ascii, push_decimal};
use crate::stringesc::char_utf8_bytes;
use crate::stringutil::{chars_to_string, str_eq, str_to_chars, string_push, string_push_str};
use crate::weburl::{split_chars, UrlParts, UrlPartsView};

verus! {

/// Whether a character is a control character (general category Cc).
pub open spec fn is_control_char(c: char) -> bool {
    (c as u32) <= 0x1F || (0x7F <= (c as u32) && (c as u32) <= 0x9F)
}

/// Characters reserved in file names: `<>:"/\|?*`.
pub open spec fn is_reserved_char(c: char) -> bool {
    c == '<' || c == '>' || c == ':' || c == '"' || c == '/' || c == '\\' || c == '|' || c == '?'
        || c == '*'
}

/// Whether every character is a dot.
pub open spec fn all_dots(s: Seq<char>) -> bool {
    forall|i: int| 0 <= i < s.len() ==> s[i] == '.'
}

/// `s` with control and reserved characters replaced by `_`; a name of
/// dots only has every dot replaced.
pub open spec fn replace_unsafe(s: Seq<char>) -> Seq<char> {
    let d = all_dots(s);
    s.map_values(
        |c: char|
            if d || is_control_char(c) || is_reserved_char(c) {
                '_'
            } else {
                c
            },
    )
}

/// The three-letter DOS device names.
pub open spec fn is_dos3(b: Seq<char>) -> bool {
    b == seq!['c', 'o', 'n'] || b == seq!['p', 'r', 'n'] || b == seq!['a', 'u', 'x'] || b == seq![
        'n',
        'u',
        'l',
    ]
}

/// The numbered DOS device names: `com1` to `com9`, `lpt0` to `lpt9`.
pub open spec fn is_dos4(b: Seq<char>) -> bool {
    b.len() == 4 && ((b[0] == 'c' && b[1] == 'o' && b[2] == 'm' && '1' <= b[3] <= '9') || (b[0]
        == 'l' && b[1] == 'p' && b[2] == 't' && '0' <= b[3] <= '9'))
}

/// What may follow a DOS device name: nothing, or a dot and at least one
/// character that is not a dot.
pub open spec fn dos_suffix_ok(r: Seq<char>) -> bool {
    r.len() == 0 || (r[0] == '.' && r.len() >= 2 && forall|i: int| 1 <= i < r.len() ==> r[i] != '.')
}

/// Whether a name is a DOS device name, with at most one extension:
/// `^(con|prn|aux|nul|com[1-9]|lpt[0-9])(\.[^.]+)?$`.
pub open spec fn is_dos_device(s: Seq<char>) -> bool {
    (s.len() >= 3 && is_dos3(s.take(3)) && dos_suffix_ok(s.skip(3))) || (s.len() >= 4 && is_dos4(
        s.take(4),
    ) && dos_suffix_ok(s.skip(4)))
}

/// Index of the first `c` in `s`.
pub open spec fn first_index_of(s: Seq<char>, c: char) -> Option<nat>
    decreases s.len(),
{
    if s.len() == 0 {
        None
    } else if s[0] == c {
        Some(0)
    } else {
        match first_index_of(s.drop_first(), c) {
            Some(i) => Some(i + 1),
            None => None,
        }
    }
}

/// A DOS device name gets `_` before its first dot, or at its end.
pub open spec fn guard_dos(s: Seq<char>) -> Seq<char> {
    if is_dos_device(s) {
        match first_index_of(s, '.') {
            Some(i) => s.insert(i as int, '_'),
            None => s.push('_'),
        }
    } else {
        s
    }
}

/// A trailing space or dot is replaced by `_`.
pub open spec fn guard_end(s: Seq<char>) -> Seq<char> {
    if s.len() > 0 && (s.last() == ' ' || s.last() == '.') {
        s.drop_last().push('_')
    } else {
        s
    }
}

/// The longest prefix of `s` whose UTF-8 encoding is at most `max` bytes.
pub open spec fn trim_to_bytes(s: Seq<char>, max: nat) -> Seq<char>
    decreases s.len(),
{
    if s.len() == 0 || encode_utf8(s).len() <= max {
        s
    } else {
        trim_to_bytes(s.drop_last(), max)
    }
}

/// A name over 200 bytes is cut to 200 bytes and gets `_` and the hash.
pub open spec fn guard_length(s: Seq<char>, hash: u64) -> Seq<char> {
    if encode_utf8(s).len() > 200 {
        trim_to_bytes(s, 200) + seq!['_'] + hex16(hash)
    } else {
        s
    }
}

/// An empty name becomes `_`.
pub open spec fn guard_empty(s: Seq<char>) -> Seq<char> {
    if s.len() == 0 {
        seq!['_']
    } else {
        s
    }
}

/// The safe file name for a path component.
pub open spec fn spec_sanitize_component(part: Seq<char>) -> Seq<char> {
    guard_empty(
        guard_length(
            guard_end(guard_dos(replace_unsafe(part))),
            mx3_v3_hash(encode_utf8(part), 1),
        ),
    )
}

proof fn lemma_encode_utf8_push(s: Seq<char>, c: char)
    ensures
        encode_utf8(s.push(c)) == encode_utf8(s) + encode_utf8(seq![c]),
    decreases s.len(),
{
    if s.len() == 0 {
        assert(s.push(c) =~= seq![c]);
    } else {
        lemma_encode_utf8_push(s.drop_first(), c);
        assert(s.push(c).drop_first() =~= s.drop_first().push(c));
        assert(encode_utf8(s.push(c)) =~= encode_utf8(s) + encode_utf8(seq![c]));
    }
}

/// Byte lengths only grow as characters are added.
proof fn lemma_encode_len_monotone(s: Seq<char>, a: int, b: int)
    requires
        0 <= a <= b <= s.len(),
    ensures
        encode_utf8(s.take(a)).len() <= encode_utf8(s.take(b)).len(),
    decreases b - a,
{
    if a < b {
        lemma_encode_len_monotone(s, a, b - 1);
        lemma_encode_utf8_push(s.take(b - 1), s[b - 1]);
        assert(s.take(b - 1).push(s[b - 1]) =~= s.take(b));
    }
}

/// Cutting to `max` bytes keeps the prefix before the first character that
/// does not fit.
proof fn lemma_trim_prefix(s: Seq<char>, i: int, j: int, max: nat)
    requires
        0 <= i < j <= s.len(),
        encode_utf8(s.take(i)).len() <= max,
        encode_utf8(s.take(i + 1)).len() > max,
    ensures
        trim_to_bytes(s.take(j), max) == s.take(i),
    decreases j - i,
{
    lemma_encode_len_monotone(s, i + 1, j);
    assert(s.take(j).drop_last() =~= s.take(j - 1));
    if j == i + 1 {
        assert(trim_to_bytes(s.take(i), max) == s.take(i));
    } else {
        lemma_trim_prefix(s, i, j - 1, max);
    }
}

fn dos_suffix_ok_at(s: &Vec<char>, start: usize) -> (ok: bool)
    requires
        start <= s@.len(),
    ensures
        ok == dos_suffix_ok(s@.skip(start as int)),
{
    let n = s.len();
    if start == n {
        return true;
    }
    if s[start] != '.' || n - start < 2 {
        return false;
    }
    let mut i = start + 1;
    while i < n
        invariant
            start + 1 <= i <= n,
            n == s@.len(),
            forall|j: int| start + 1 <= j < i ==> s@[j] != '.',
        decreases n - i,
    {
        if s[i] == '.' {
            assert(s@.skip(start as int)[i - start] == '.');
            return false;
        }
        i = i + 1;
    }
    assert forall|j: int| 1 <= j < s@.skip(start as int).len() implies s@.skip(start as int)[j]
        != '.' by {
        assert(s@.skip(start as int)[j] == s@[start + j]);
    }
    true
}

fn is_dos_device_chars(s: &Vec<char>) -> (r: bool)
    ensures
        r == is_dos_device(s@),
{
    let n = s.len();
    let three = n >= 3 && ((s[0] == 'c' && s[1] == 'o' && s[2] == 'n') || (s[0] == 'p' && s[1]
        == 'r' && s[2] == 'n') || (s[0] == 'a' && s[1] == 'u' && s[2] == 'x') || (s[0] == 'n'
        && s[1] == 'u' && s[2] == 'l'));
    proof {
        if n >= 3 {
            let t = s@.take(3);
            assert(t =~= seq![s@[0], s@[1], s@[2]]);
        }
    }
    if three && dos_suffix_ok_at(s, 3) {
        return true;
    }
    let four = n >= 4 && ((s[0] == 'c' && s[1] == 'o' && s[2] == 'm' && '1' <= s[3] && s[3]
        <= '9') || (s[0] == 'l' && s[1] == 'p' && s[2] == 't' && '0' <= s[3] && s[3] <= '9'));
    proof {
        if n >= 4 {
            let t = s@.take(4);
            assert(t[0] == s@[0] && t[1] == s@[1] && t[2] == s@[2] && t[3] == s@[3]);
        }
    }
    four && dos_suffix_ok_at(s, 4)
}

fn replace_unsafe_chars(part: &str) -> (r: Vec<char>)
    ensures
        r@ == replace_unsafe(part@),
{
    let chars = str_to_chars(part);
    let mut is_dots = true;
    let mut i: usize = 0;
    while i < chars.len()
        invariant
            0 <= i <= chars@.len(),
            chars@ == part@,
            is_dots == forall|j: int| 0 <= j < i ==> chars@[j] == '.',
        decreases chars@.len() - i,
    {
        if chars[i] != '.' {
            is_dots = false;
        }
        i = i + 1;
    }
    let mut s: Vec<char> = Vec::new();
    let mut k: usize = 0;
    while k < chars.len()
        invariant
            0 <= k <= chars@.len(),
            chars@ == part@,
            is_dots == all_dots(part@),
            s@ == replace_unsafe(part@).take(k as int),
        decreases chars@.len() - k,
    {
        let c = chars[k];
        let code = c as u32;
        let unsafe_char = is_dots || code <= 0x1F || (0x7F <= code && code <= 0x9F) || c == '<' || c
            == '>' || c == ':' || c == '"' || c == '/' || c == '\\' || c == '|' || c == '?' || c
            == '*';
        if unsafe_char {
            s.push('_');
        } else {
            s.push(c);
        }
        k = k + 1;
        assert(s@ =~= replace_unsafe(part@).take(k as int));
    }
    assert(replace_unsafe(part@).take(k as int) =~= replace_unsafe(part@));
    s
}

fn guard_dos_chars(s: &mut Vec<char>)
    ensures
        final(s)@ == guard_dos(old(s)@),
{
    let ghost s1 = s@;
    if is_dos_device_chars(s) {
        let mut dot: usize = 0;
        while dot < s.len() && s[dot] != '.'
            invariant
                0 <= dot <= s@.len(),
                s@ == s1,
                forall|j: int| 0 <= j < dot ==> s@[j] != '.',
            decreases s@.len() - dot,
        {
            dot = dot + 1;
        }
        proof {
            lemma_first_index_of(s1, '.', dot as int);
        }
        if dot < s.len() {
            s.insert(dot, '_');
        } else {
            s.push('_');
        }
    }
}

fn guard_end_chars(s: &mut Vec<char>)
    ensures
        final(s)@ == guard_end(old(s)@),
{
    let n = s.len();
    if n > 0 && (s[n - 1] == ' ' || s[n - 1] == '.') {
        s.pop();
        s.push('_');
        assert(s@ =~= old(s)@.drop_last().push('_'));
    }
}

/// Returns a safe file name for one path component.
///
/// Control characters and `<>:"/\|?*` become `_` (every character, for a
/// name of dots only); a DOS device name gets `_` before its first dot (or
/// at its end); a trailing space or dot becomes `_`; a name over 200 bytes
/// is cut to at most 200 bytes and gets `_` and the 16-digit hexadecimal
/// mx3 hash of the given name; an empty name becomes `_`.
pub fn sanitize_component(part: &str) -> (r: String)
    ensures
        r@ == spec_sanitize_component(part@),
{
    let hash = mx3_hash(part.as_bytes(), 1);
    let mut s = replace_unsafe_chars(part);
    guard_dos_chars(&mut s);
    guard_end_chars(&mut s);
    let ghost s3 = s@;
    let mut acc: usize = 0;
    let mut cut: usize = 0;
    let mut over = false;
    assert(s3.take(0) =~= Seq::<char>::empty());
    while cut < s.len()
        invariant
            s@ == s3,
            0 <= cut <= s3.len(),
            acc == encode_utf8(s3.take(cut as int)).len(),
            acc <= 200,
            over ==> cut < s3.len() && encode_utf8(s3.take(cut + 1)).len() > 200,
        ensures
            over ==> cut < s3.len() && encode_utf8(s3.take(cut + 1)).len() > 200,
            !over ==> cut == s3.len(),
            acc == encode_utf8(s3.take(cut as int)).len(),
            acc <= 200,
            s@ == s3,
        decreases s3.len() - cut,
    {
        let width = char_utf8_bytes(s[cut]).len();
        proof {
            lemma_encode_utf8_push(s3.take(cut as int), s3[cut as int]);
            assert(s3.take(cut as int).push(s3[cut as int]) =~= s3.take(cut + 1));
        }
        if width > 200 - acc {
            over = true;
            break;
        }
        acc = acc + width;
        cut = cut + 1;
    }
    if over {
        proof {
            lemma_trim_prefix(s3, cut as int, s3.len() as int, 200);
            assert(s3.take(s3.len() as int) =~= s3);
            lemma_encode_len_monotone(s3, cut + 1, s3.len() as int);
        }
        s.truncate(cut);
        let mut out = chars_to_string(s.as_slice());
        string_push(&mut out, '_');
        push_hex16(&mut out, hash);
        return out;
    }
    assert(s3.take(cut as int) =~= s3);
    if s.len() == 0 {
        s.push('_');
    }
    chars_to_string(s.as_slice())
}

proof fn lemma_first_index_of(s: Seq<char>, c: char, i: int)
    requires
        0 <= i <= s.len(),
        forall|j: int| 0 <= j < i ==> s[j] != c,
        i == s.len() || s[i] == c,
    ensures
        first_index_of(s, c) == if i < s.len() {
            Some(i as nat)
        } else {
            None::<nat>
        },
    decreases i,
{
    if i > 0 {
        assert forall|j: int| 0 <= j < i - 1 implies s.drop_first()[j] != c by {
            assert(s.drop_first()[j] == s[j + 1]);
        }
        lemma_first_index_of(s.drop_first(), c, i - 1);
    }
}

/// `https` and `wss` become `http` and `ws`; other schemes are kept.
pub open spec fn spec_normalize_scheme(scheme: Seq<char>) -> Seq<char> {
    if scheme == "https"@ {
        "http"@
    } else if scheme == "wss"@ {
        "ws"@
    } else {
        scheme
    }
}

/// Returns the scheme with `https` and `wss` made `http` and `ws`.
pub fn normalize_scheme(scheme: &str) -> (r: &str)
    ensures
        r@ == spec_normalize_scheme(scheme@),
{
    if str_eq(scheme, "https") {
        "http"
    } else if str_eq(scheme, "wss") {
        "ws"
    } else {
        scheme
    }
}

/// The non-empty path segments, each made a safe file name.
pub open spec fn sanitize_segments(segs: Seq<Seq<char>>) -> Seq<Seq<char>>
    decreases segs.len(),
{
    if segs.len() == 0 {
        seq![]
    } else {
        let rest = sanitize_segments(segs.drop_first());
        if segs[0].len() == 0 {
            rest
        } else {
            seq![spec_sanitize_component(segs[0])] + rest
        }
    }
}

/// The text after the first `:` of `s`, or all of `s` without one.
pub open spec fn after_colon(s: Seq<char>) -> Seq<char> {
    match first_index_of(s, ':') {
        Some(i) => s.skip((i + 1) as int),
        None => s,
    }
}

/// The file path components for a URL: the scheme (`https` as `http`,
/// `wss` as `ws`), the host with any port after a comma, the non-empty path
/// segments, the query; a URL with nothing after the scheme gets the text
/// after its first colon. Each component is made a safe file name.
pub open spec fn spec_url_to_path(u: UrlPartsView) -> Seq<Seq<char>> {
    let a = seq![spec_sanitize_component(spec_normalize_scheme(u.scheme))];
    let b = match u.host {
        Some(h) => a.push(
            spec_sanitize_component(
                match u.port {
                    Some(p) => h + seq![','] + ascii_chars(dec_digits(p as nat)),
                    None => h,
                },
            ),
        ),
        None => a,
    };
    let c = if u.path.len() > 0 && u.path[0] == '/' {
        b + sanitize_segments(split_chars(u.path.drop_first(), '/'))
    } else {
        b
    };
    let d = match u.query {
        Some(q) => c.push(spec_sanitize_component(q)),
        None => c,
    };
    if d.len() == 1 {
        d.push(spec_sanitize_component(after_colon(u.serialization)))
    } else {
        d
    }
}

/// Creates the components of a safe relative file path for a URL.
///
/// See [spec_url_to_path]; joined with the path separator they form the path.
pub fn url_to_path_buf(url: &UrlParts) -> (r: Vec<String>)
    ensures
        r@.map_values(|x: String| x@) == spec_url_to_path(url@),
{
    let mut path: Vec<String> = Vec::new();
    path.push(sanitize_component(normalize_scheme(url.scheme.as_str())));
    let ghost u = url@;
    let ghost a = seq![spec_sanitize_component(spec_normalize_scheme(u.scheme))];
    assert(path@.map_values(|x: String| x@) =~= a);
    if let Some(host) = &url.host {
        match url.port {
            Some(port) => {
                let mut text = host.clone();
                string_push(&mut text, ',');
                let mut digits: Vec<u8> = Vec::new();
                push_decimal(&mut digits, port as u64);
                push_ascii(&mut text, digits.as_slice());
                assert(text@ =~= host@ + seq![','] + ascii_chars(dec_digits(port as nat)));
                let ghost before = path@.map_values(|x: String| x@);
                let component = sanitize_component(text.as_str());
                path.push(component);
                assert(path@.map_values(|x: String| x@) =~= before.push(component@));
            },
            None => {
                let ghost before = path@.map_values(|x: String| x@);
                let component = sanitize_component(host.as_str());
                path.push(component);
                assert(path@.map_values(|x: String| x@) =~= before.push(component@));
            },
        }
    }
    let ghost b = path@.map_values(|x: String| x@);
    assert(b =~= match u.host {
        Some(h) => a.push(
            spec_sanitize_component(
                match u.port {
                    Some(p) => h + seq![','] + ascii_chars(dec_digits(p as nat)),
                    None => h,
                },
            ),
        ),
        None => a,
    });
    if let Some(segments) = url.path_segments() {
        let ghost segs = segments@.map_values(|x: String| x@);
        let mut i: usize = segments.len();
        let mut tail: Vec<String> = Vec::new();
        assert(segs.skip(segs.len() as int) =~= Seq::<Seq<char>>::empty());
        while i > 0
            invariant
                i <= segments@.len(),
                segs == segments@.map_values(|x: String| x@),
                tail@.map_values(|x: String| x@) == sanitize_segments(segs.skip(i as int)),
            decreases i,
        {
            i = i - 1;
            assert(segs.skip(i as int).drop_first() =~= segs.skip(i + 1));
            let seg = segments[i].as_str();
            let chars = str_to_chars(seg);
            if chars.len() > 0 {
                let ghost t = tail@.map_values(|x: String| x@);
                tail.insert(0, sanitize_component(seg));
                assert(tail@.map_values(|x: String| x@) =~= seq![spec_sanitize_component(seg@)] + t);
            }
        }
        assert(segs.skip(0) =~= segs);
        let mut j: usize = 0;
        let ghost p0 = path@.map_values(|x: String| x@);
        while j < tail.len()
            invariant
                0 <= j <= tail@.len(),
                path@.map_values(|x: String| x@) == p0 + tail@.map_values(|x: String| x@).take(
                    j as int,
                ),
            decreases tail@.len() - j,
        {
            let ghost before = path@.map_values(|x: String| x@);
            path.push(tail[j].clone());
            assert(path@.map_values(|x: String| x@) =~= before.push(tail@[j as int]@));
            j = j + 1;
            assert(p0 + tail@.map_values(|x: String| x@).take(j as int) =~= before.push(
                tail@[j - 1]@,
            ));
        }
        assert(tail@.map_values(|x: String| x@).take(j as int) =~= tail@.map_values(
            |x: String| x@,
        ));
    }
    let ghost c = path@.map_values(|x: String| x@);
    assert(c =~= if u.path.len() > 0 && u.path[0] == '/' {
        b + sanitize_segments(split_chars(u.path.drop_first(), '/'))
    } else {
        b
    });
    if let Some(query) = &url.query {
        path.push(sanitize_component(query.as_str()));
    }
    let ghost d = path@.map_values(|x: String| x@);
    assert(d =~= match u.query {
        Some(q) => c.push(spec_sanitize_component(q)),
        None => c,
    });
    if path.len() == 1 {
        let chars = str_to_chars(url.serialization.as_str());
        let mut k: usize = 0;
        while k < chars.len() && chars[k] != ':'
            invariant
                0 <= k <= chars@.len(),
                chars@ == url@.serialization,
                forall|j: int| 0 <= j < k ==> chars@[j] != ':',
            decreases chars@.len() - k,
        {
            k = k + 1;
        }
        proof {
            lemma_first_index_of(chars@, ':', k as int);
        }
        let mut other: Vec<char> = Vec::new();
        let start = if k < chars.len() {
            k + 1
        } else {
            0
        };
        let mut m = start;
        while m < chars.len()
            invariant
                start <= m <= chars@.len(),
                other@ == chars@.subrange(start as int, m as int),
            decreases chars@.len() - m,
        {
            other.push(chars[m]);
            m = m + 1;
            assert(other@ =~= chars@.subrange(start as int, m as int));
        }
        assert(other@ =~= after_colon(url@.serialization));
        let text = chars_to_string(other.as_slice());
        path.push(sanitize_component(text.as_str()));
    }
    path
}

/// A path component with a number after an underscore, as used to avoid
/// an existing file: `name_count`.
pub open spec fn spec_numbered_name(name: Seq<char>, count: u64) -> Seq<char> {
    name + seq!['_'] + ascii_chars(dec_digits(count as nat))
}

/// Returns `name` followed by `_` and `count`.
pub fn numbered_name(name: &str, count: u64) -> (r: String)
    ensures
        r@ == spec_numbered_name(name@, count),
{
    let mut out = String::new();
    string_push_str(&mut out, name);
    string_push(&mut out, '_');
    let mut digits: Vec<u8> = Vec::new();
    push_decimal(&mut digits, count);
    push_ascii(&mut out, digits.as_slice());
    out
}


/// The name tried for a path component at the given attempt: the name
/// itself first, then `name_1`, `name_2` and so on.
pub open spec fn spec_conflict_candidate(name: Seq<char>, attempt: u64) -> Seq<char> {
    if attempt == 0 {
        name
    } else {
        spec_numbered_name(name, attempt)
    }
}

/// Whether a candidate conflicts with what is on disk: a last component
/// conflicts with anything that exists, a directory component only with a
/// file.
pub open spec fn spec_conflicts(is_last: bool, exists: bool, is_file: bool) -> bool {
    if is_last {
        exists
    } else {
        is_file
    }
}

/// The search for a name of one path component that does not conflict
/// with an existing file.
///
/// The caller tests each candidate on disk and hands the outcome to
/// [ConflictSearch::step], until it answers `None`.
#[derive(Debug)]
pub struct ConflictSearch {
    name: String,
    is_last: bool,
    attempt: u64,
}

impl ConflictSearch {
    /// The component's own name.
    pub closed spec fn spec_name(&self) -> Seq<char> {
        self.name@
    }

    /// Whether the component is the last of the path.
    pub closed spec fn spec_is_last(&self) -> bool {
        self.is_last
    }

    /// How many candidates were refused so far.
    pub closed spec fn spec_attempt(&self) -> u64 {
        self.attempt
    }

    /// Starts the search for a component named `name`.
    pub fn new(name: &str, is_last: bool) -> (r: Self)
        ensures
            r.spec_name() == name@,
            r.spec_is_last() == is_last,
            r.spec_attempt() == 0,
    {
        let mut text = String::new();
        string_push_str(&mut text, name);
        ConflictSearch { name: text, is_last, attempt: 0 }
    }

    /// Returns how many candidates were refused so far.
    pub fn attempt(&self) -> (r: u64)
        ensures
            r == self.spec_attempt(),
    {
        self.attempt
    }

    /// Returns the candidate being tested.
    pub fn candidate(&self) -> (r: String)
        ensures
            r@ == spec_conflict_candidate(self.spec_name(), self.spec_attempt()),
    {
        if self.attempt == 0 {
            let mut text = String::new();
            string_push_str(&mut text, self.name.as_str());
            text
        } else {
            numbered_name(self.name.as_str(), self.attempt)
        }
    }

    /// Takes whether the current candidate exists and whether it is a file.
    ///
    /// Returns `None` when the candidate does not conflict and is kept;
    /// otherwise moves to the next candidate and returns it.
    pub fn step(&mut self, exists: bool, is_file: bool) -> (r: Option<String>)
        requires
            old(self).spec_attempt() < u64::MAX,
        ensures
            final(self).spec_name() == old(self).spec_name(),
            final(self).spec_is_last() == old(self).spec_is_last(),
            !spec_conflicts(old(self).spec_is_last(), exists, is_file) ==> {
                &&& r is None
                &&& final(self).spec_attempt() == old(self).spec_attempt()
            },
            spec_conflicts(old(self).spec_is_last(), exists, is_file) ==> {
                &&& final(self).spec_attempt() == old(self).spec_attempt() + 1
                &&& r matches Some(s) && s@ == spec_conflict_candidate(
                    old(self).spec_name(),
                    final(self).spec_attempt(),
                )
            },
    {
        let conflict = if self.is_last {
            exists
        } else {
            is_file
        };
        if !conflict {
            return None;
        }
        self.attempt = self.attempt + 1;
        Some(self.candidate())
    }
}

/// The digits of a hexadecimal numeral: each is `0`-`9` or `a`-`f`.
proof fn lemma_hex_digits_chars(v: nat, n: nat)
    ensures
        hex_digits(v, n).len() == n,
        forall|i: int|
            0 <= i < n ==> {
                let c = #[trigger] hex_digits(v, n)[i];
                ('0' <= c <= '9') || ('a' <= c <= 'f')
            },
    decreases n,
{
    if n > 0 {
        lemma_hex_digits_chars(v / 16, (n - 1) as nat);
        let d = v % 16;
        assert(d < 16);
    }
}

/// Cutting to a number of bytes keeps a prefix.
proof fn lemma_trim_to_bytes_prefix(s: Seq<char>, max: nat)
    ensures
        trim_to_bytes(s, max).len() <= s.len(),
        trim_to_bytes(s, max) == s.take(trim_to_bytes(s, max).len() as int),
    decreases s.len(),
{
    if s.len() == 0 || encode_utf8(s).len() <= max {
        assert(s.take(s.len() as int) =~= s);
    } else {
        lemma_trim_to_bytes_prefix(s.drop_last(), max);
        let t = trim_to_bytes(s.drop_last(), max);
        assert(s.drop_last().take(t.len() as int) =~= s.take(t.len() as int));
    }
}

proof fn lemma_first_index_of_bound(s: Seq<char>, c: char)
    ensures
        first_index_of(s, c) matches Some(k) ==> k < s.len(),
    decreases s.len(),
{
    if s.len() > 0 && s[0] != c {
        lemma_first_index_of_bound(s.drop_first(), c);
    }
}

/// The UTF-8 encoding of one character takes one to four bytes.
proof fn lemma_char_bytes_len(c: char)
    ensures
        1 <= encode_utf8(seq![c]).len() <= 4,
{
    let one = seq![c];
    assert(one.drop_first() =~= Seq::<char>::empty());
    assert(encode_utf8(one) == encode_scalar(one[0] as u32) + encode_utf8(one.drop_first()));
    assert(encode_utf8(one) =~= encode_scalar(c as u32));
}

/// The encoding of a concatenation is the concatenation of the encodings.
proof fn lemma_encode_utf8_concat(a: Seq<char>, b: Seq<char>)
    ensures
        encode_utf8(a + b) == encode_utf8(a) + encode_utf8(b),
    decreases a.len(),
{
    if a.len() == 0 {
        assert(a + b =~= b);
        assert(encode_utf8(a) =~= Seq::<u8>::empty());
        assert(encode_utf8(a) + encode_utf8(b) =~= encode_utf8(b));
    } else {
        lemma_encode_utf8_concat(a.drop_first(), b);
        assert((a + b).drop_first() =~= a.drop_first() + b);
        assert((a + b)[0] == a[0]);
        assert(encode_utf8(a + b) =~= encode_utf8(a) + encode_utf8(b));
    }
}

/// Every character takes at least one byte.
proof fn lemma_encode_utf8_at_least(s: Seq<char>)
    ensures
        encode_utf8(s).len() >= s.len(),
    decreases s.len(),
{
    if s.len() > 0 {
        lemma_encode_utf8_at_least(s.drop_first());
        lemma_char_bytes_len(s[0]);
        assert(seq![s[0]] + s.drop_first() =~= s);
        lemma_encode_utf8_concat(seq![s[0]], s.drop_first());
    }
}

/// Cutting a name that is over `max` bytes leaves more than `max - 4` bytes.
proof fn lemma_trim_to_bytes_long(s: Seq<char>, max: nat)
    requires
        encode_utf8(s).len() > max,
    ensures
        encode_utf8(trim_to_bytes(s, max)).len() + 4 > max,
    decreases s.len(),
{
    let d = s.drop_last();
    assert(d + seq![s.last()] =~= s);
    lemma_encode_utf8_concat(d, seq![s.last()]);
    lemma_char_bytes_len(s.last());
    if encode_utf8(d).len() > max {
        lemma_trim_to_bytes_long(d, max);
    } else {
        if d.len() == 0 {
            assert(encode_utf8(d) =~= Seq::<u8>::empty());
        }
        assert(trim_to_bytes(d, max) == d);
    }
}

/// Whether a name is reserved for a DOS device, as the pattern
/// `^(con|prn|aux|nul|com[1-9]|lpt[0-9])(\.[^.]+)?$` matches it: one of
/// the device names, alone or followed by a dot and at least one
/// character that is not a dot.
pub open spec fn reserved_device_name(s: Seq<char>) -> bool {
    let three = s.len() >= 3 && (s.take(3) == seq!['c', 'o', 'n'] || s.take(3) == seq!['p', 'r', 'n']
        || s.take(3) == seq!['a', 'u', 'x'] || s.take(3) == seq!['n', 'u', 'l']);
    let four = s.len() >= 4 && ((s[0] == 'c' && s[1] == 'o' && s[2] == 'm' && '1' <= s[3] <= '9')
        || (s[0] == 'l' && s[1] == 'p' && s[2] == 't' && '0' <= s[3] <= '9'));
    let n: int = if three {
        3
    } else {
        4
    };
    &&& three || four
    &&& s.len() == n || (s[n] == '.' && s.len() > n + 1 && forall|i: int|
        n < i < s.len() ==> s[i] != '.')
}

proof fn lemma_reserved_is_dos(s: Seq<char>)
    ensures
        reserved_device_name(s) == is_dos_device(s),
{
    if s.len() >= 3 {
        assert(s.take(3) =~= seq![s[0], s[1], s[2]]);
    }
    if s.len() >= 4 {
        let t = s.take(4);
        assert(t[0] == s[0] && t[1] == s[1] && t[2] == s[2] && t[3] == s[3]);
    }
    if s.len() >= 3 {
        let r = s.skip(3);
        assert(forall|i: int| 0 <= i < r.len() ==> r[i] == s[i + 3]);
    }
    if s.len() >= 4 {
        let r = s.skip(4);
        assert(forall|i: int| 0 <= i < r.len() ==> r[i] == s[i + 4]);
    }
    if reserved_device_name(s) != is_dos_device(s) {
        if s.len() >= 3 && is_dos3(s.take(3)) && dos_suffix_ok(s.skip(3)) {
            let r = s.skip(3);
            if r.len() > 0 {
                assert forall|i: int| 3 < i < s.len() implies s[i] != '.' by {
                    assert(s[i] == r[i - 3]);
                }
            }
        }
        if s.len() >= 4 && is_dos4(s.take(4)) && dos_suffix_ok(s.skip(4)) {
            let r = s.skip(4);
            if r.len() > 0 {
                assert forall|i: int| 4 < i < s.len() implies s[i] != '.' by {
                    assert(s[i] == r[i - 4]);
                }
            }
        }
        if reserved_device_name(s) {
            let three = s.len() >= 3 && is_dos3(s.take(3));
            let n: int = if three { 3 } else { 4 };
            assert forall|i: int| 1 <= i < s.skip(n).len() implies s.skip(n)[i] != '.' by {
                assert(s.skip(n)[i] == s[i + n]);
            }
        }
    }
}

/// The DOS guard leaves no device name behind: when `a` is one, the guard
/// puts `_` right after the device name.
proof fn lemma_guard_dos_not_device(a: Seq<char>)
    requires
        a.len() == 0 || (a.last() != ' ' && a.last() != '.'),
    ensures
        !is_dos_device(guard_dos(a)),
        guard_dos(a).len() == 0 || (guard_dos(a).last() != ' ' && guard_dos(a).last() != '.'),
{
    let b = guard_dos(a);
    if is_dos_device(a) {
        let n: int = if a.len() >= 3 && is_dos3(a.take(3)) && dos_suffix_ok(a.skip(3)) {
            3
        } else {
            4
        };
        assert(a.len() >= n);
        assert forall|j: int| 0 <= j < n implies a[j] != '.' by {
            if n == 3 {
                assert(a.take(3)[j] == a[j]);
            } else {
                assert(a.take(4)[j] == a[j]);
            }
        }
        let r = a.skip(n);
        if r.len() > 0 {
            assert(r[0] == a[n]);
            assert(a[n] == '.');
            lemma_first_index_of(a, '.', n);
            assert(b == a.insert(n, '_'));
        } else {
            lemma_first_index_of(a, '.', a.len() as int);
            assert(a.len() == n);
            assert(b == a.push('_'));
        }
        assert(b.len() > n);
        assert(b[n] == '_');
        assert forall|j: int| 0 <= j < n implies b[j] == a[j] by {}
        if n == 3 {
            assert(a.take(3) =~= seq![a[0], a[1], a[2]]);
        } else {
            let t = a.take(4);
            assert(t[0] == a[0] && t[1] == a[1] && t[2] == a[2] && t[3] == a[3]);
        }
        assert(b.take(3) =~= seq![b[0], b[1], b[2]]);
        assert(!reserved_device_name(b));
        lemma_reserved_is_dos(b);
    }
}

/// A sanitized path component is not a name reserved for a DOS device
/// (`^(con|prn|aux|nul|com[1-9]|lpt[0-9])(\.[^.]+)?$`) when the component
/// does not end with a space or a dot and the result is at most 200 bytes
/// long, so that it was not cut to length.
pub proof fn law_sanitized_component_not_device(part: Seq<char>)
    requires
        part.len() == 0 || (part.last() != ' ' && part.last() != '.'),
    ensures
        encode_utf8(spec_sanitize_component(part)).len() <= 200 ==> !reserved_device_name(
            spec_sanitize_component(part),
        ),
{
    let a = replace_unsafe(part);
    if part.len() > 0 {
        assert(!all_dots(part));
        assert(a.last() == a[a.len() - 1]);
    }
    lemma_guard_dos_not_device(a);
    let b = guard_dos(a);
    let c = guard_end(b);
    assert(c == b);
    let h = mx3_v3_hash(encode_utf8(part), 1);
    let r = spec_sanitize_component(part);
    if encode_utf8(c).len() > 200 {
        let t = trim_to_bytes(c, 200);
        lemma_trim_to_bytes_long(c, 200);
        lemma_hex_digits_chars(h as nat, 16);
        let x = seq!['_'] + hex16(h);
        lemma_encode_utf8_at_least(x);
        assert(t + seq!['_'] + hex16(h) =~= t + x);
        lemma_encode_utf8_concat(t, x);
        assert(r == t + x);
    } else {
        assert(guard_length(c, h) == c);
        if c.len() == 0 {
            assert(r =~= seq!['_']);
        } else {
            assert(r == c);
            lemma_reserved_is_dos(c);
        }
    }
}

/// Whether a character may stand anywhere in a file name.
pub open spec fn is_safe_name_char(c: char) -> bool {
    !is_control_char(c) && !is_reserved_char(c)
}

/// A sanitized path component is a safe file name: it is not empty, it
/// holds no control character and none of `<>:"/\|?*`, and it does not end
/// with a space or a dot.
pub proof fn law_sanitized_component_is_safe(part: Seq<char>)
    ensures
        spec_sanitize_component(part).len() > 0,
        forall|i: int|
            0 <= i < spec_sanitize_component(part).len() ==> is_safe_name_char(
                #[trigger] spec_sanitize_component(part)[i],
            ),
        spec_sanitize_component(part).last() != ' ',
        spec_sanitize_component(part).last() != '.',
{
    let a = replace_unsafe(part);
    assert(forall|i: int| 0 <= i < a.len() ==> is_safe_name_char(#[trigger] a[i]));
    let b = guard_dos(a);
    if is_dos_device(a) {
        match first_index_of(a, '.') {
            Some(k) => {
                lemma_first_index_of_bound(a, '.');
                assert forall|i: int| 0 <= i < b.len() implies is_safe_name_char(#[trigger] b[i]) by {
                    if i < k {
                        assert(b[i] == a[i]);
                    } else if i == k {
                        assert(b[i] == '_');
                    } else {
                        assert(b[i] == a[i - 1]);
                    }
                }
            },
            None => {
                assert forall|i: int| 0 <= i < b.len() implies is_safe_name_char(#[trigger] b[i]) by {
                    if i < a.len() {
                        assert(b[i] == a[i]);
                    }
                }
            },
        }
    }
    assert(forall|i: int| 0 <= i < b.len() ==> is_safe_name_char(#[trigger] b[i]));
    let c = guard_end(b);
    assert forall|i: int| 0 <= i < c.len() implies is_safe_name_char(#[trigger] c[i]) by {
        if b.len() > 0 && (b.last() == ' ' || b.last() == '.') && i < c.len() - 1 {
            assert(c[i] == b[i]);
        }
    }
    assert(c.len() > 0 ==> c.last() != ' ' && c.last() != '.');
    let h = mx3_v3_hash(encode_utf8(part), 1);
    let d = guard_length(c, h);
    if encode_utf8(c).len() > 200 {
        let t = trim_to_bytes(c, 200);
        lemma_trim_to_bytes_prefix(c, 200);
        lemma_hex_digits_chars(h as nat, 16);
        let x = hex16(h);
        assert(d == t + seq!['_'] + x);
        assert forall|i: int| 0 <= i < d.len() implies is_safe_name_char(#[trigger] d[i]) by {
            if i < t.len() {
                assert(d[i] == t[i]);
                assert(t[i] == c[i]);
            } else if i == t.len() {
                assert(d[i] == '_');
            } else {
                assert(d[i] == x[i - t.len() - 1]);
            }
        }
        assert(d.last() == x[15]);
    }
}

} // verus!
