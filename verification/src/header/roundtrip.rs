//! What parsing gives back of formatted header fields.
use vstd::prelude::*;

use super::format::{spec_formatted, spec_line_bytes, spec_name_bytes, spec_separator, spec_value_bytes, HeaderFormatter};
use super::parse::{
    encoded_word_len, field_pair, field_pairs, field_value, folded_len, literal_len, quoted_len,
    spec_pair_of, spec_parse_header, value_step, word_space_len,
};
use super::FieldPairView;
use crate::scan::{
    find_byte, find_pair, in_class, lemma_find_byte, lemma_find_pair_props, lemma_span, line_ending_len,
    pair_at, span, ByteClass,
};
use crate::stringutil::{is_space_byte, is_token_byte};

verus! {

/// Whether `=?`, the start of an encoded-word, occurs nowhere in `s`.
pub open spec fn no_word_start(s: Seq<u8>) -> bool {
    forall|j: int| !pair_at(s, j, 0x3D, 0x3F)
}

/// The bytes of a field line between its colon and its line ending.
pub open spec fn value_region(f: HeaderFormatter, p: FieldPairView) -> Seq<u8> {
    spec_separator(f, p).drop_first() + spec_value_bytes(f, p.value)
}

/// Whether a field, written by `f`, is read back as written: the name is
/// made of token characters, and the value holds no DQUOTE, CR or LF and no
/// `=?`.
pub open spec fn field_readable(f: HeaderFormatter, p: FieldPairView) -> bool {
    let n = spec_name_bytes(f, p.name);
    let v = spec_value_bytes(f, p.value);
    &&& forall|i: int| 0 <= i < n.len() ==> is_token_byte(#[trigger] n[i])
    &&& forall|i: int|
        0 <= i < v.len() ==> #[trigger] v[i] != 0x22 && v[i] != 0x0D && v[i] != 0x0A
    &&& no_word_start(v)
}

/// The field that parsing gives back for a written field: its name bytes,
/// and the bytes after the colon, decoded and trimmed.
pub open spec fn field_read_back(f: HeaderFormatter, p: FieldPairView) -> FieldPairView {
    spec_pair_of(spec_name_bytes(f, p.name), value_region(f, p), value_region(f, p))
}

proof fn lemma_line_parts(f: HeaderFormatter, p: FieldPairView)
    ensures
        spec_line_bytes(f, p) == spec_name_bytes(f, p.name) + seq![0x3Au8] + value_region(f, p)
            + seq![0x0Du8, 0x0Au8],
{
    let s = spec_separator(f, p);
    assert(s =~= seq![0x3Au8] + s.drop_first());
    assert(spec_line_bytes(f, p) =~= spec_name_bytes(f, p.name) + seq![0x3Au8] + value_region(f, p)
        + seq![0x0Du8, 0x0Au8]);
}

/// The formatted fields are the first field's line followed by the others.
proof fn lemma_formatted_front(f: HeaderFormatter, ps: Seq<FieldPairView>)
    requires
        ps.len() > 0,
    ensures
        spec_formatted(f, ps) == spec_line_bytes(f, ps[0]) + spec_formatted(f, ps.drop_first()),
    decreases ps.len(),
{
    if ps.len() == 1 {
        assert(ps.drop_last() =~= Seq::<FieldPairView>::empty());
        assert(ps.drop_first() =~= Seq::<FieldPairView>::empty());
        assert(spec_formatted(f, ps) =~= spec_line_bytes(f, ps[0]) + spec_formatted(
            f,
            ps.drop_first(),
        ));
    } else {
        lemma_formatted_front(f, ps.drop_last());
        assert(ps.drop_last().drop_first() =~= ps.drop_first().drop_last());
        assert(ps.drop_first().last() == ps.last());
        assert(spec_formatted(f, ps) =~= spec_line_bytes(f, ps[0]) + spec_formatted(
            f,
            ps.drop_first(),
        ));
    }
}

/// No `=?` occurs in a suffix of bytes without one.
proof fn lemma_no_word_start_skip(s: Seq<u8>, k: int)
    requires
        no_word_start(s),
        0 <= k <= s.len(),
    ensures
        no_word_start(s.skip(k)),
{
    assert forall|j: int| !pair_at(s.skip(k), j, 0x3D, 0x3F) by {
        if pair_at(s.skip(k), j, 0x3D, 0x3F) {
            assert(pair_at(s, j + k, 0x3D, 0x3F));
        }
    }
}

/// The first byte of a field line is not a space.
proof fn lemma_line_start(f: HeaderFormatter, p: FieldPairView)
    requires
        field_readable(f, p),
    ensures
        !is_space_byte(spec_line_bytes(f, p)[0]),
        spec_line_bytes(f, p).len() > 0,
{
    lemma_line_parts(f, p);
    let n = spec_name_bytes(f, p.name);
    if n.len() > 0 {
        assert(spec_line_bytes(f, p)[0] == n[0]);
        assert(is_token_byte(n[0]));
    } else {
        assert(spec_line_bytes(f, p)[0] == 0x3Au8);
    }
}

/// A readable field line followed by bytes without `=?` holds no `=?`.
proof fn lemma_line_no_word_start(f: HeaderFormatter, p: FieldPairView, rest: Seq<u8>)
    requires
        field_readable(f, p),
        no_word_start(rest),
    ensures
        no_word_start(spec_line_bytes(f, p) + rest),
{
    lemma_line_parts(f, p);
    let n = spec_name_bytes(f, p.name);
    let v = spec_value_bytes(f, p.value);
    let t = spec_separator(f, p).drop_first();
    let s = spec_line_bytes(f, p) + rest;
    let l = spec_line_bytes(f, p).len() as int;
    let vs = n.len() + 1 + t.len();
    assert(t.len() == 0 || t =~= seq![0x20u8]);
    assert forall|j: int| !pair_at(s, j, 0x3D, 0x3F) by {
        if pair_at(s, j, 0x3D, 0x3F) {
            if j < n.len() {
                assert(s[j] == n[j]);
                assert(is_token_byte(n[j]));
            } else if j < vs {
                assert(s[j] == 0x3Au8 || s[j] == 0x20u8);
            } else if j < vs + v.len() {
                assert(s[j] == v[j - vs]);
                if j + 1 < vs + v.len() {
                    assert(s[j + 1] == v[j + 1 - vs]);
                    assert(pair_at(v, j - vs, 0x3D, 0x3F));
                } else {
                    assert(s[j + 1] == 0x0Du8);
                }
            } else if j < l {
                assert(s[j] == 0x0Du8 || s[j] == 0x0Au8);
            } else {
                assert(s[j] == rest[j - l]);
                assert(s[j + 1] == rest[j + 1 - l]);
                assert(pair_at(rest, j - l, 0x3D, 0x3F));
            }
        }
    }
}

/// Formatted readable fields hold no `=?`.
proof fn lemma_formatted_no_word_start(f: HeaderFormatter, ps: Seq<FieldPairView>)
    requires
        forall|i: int| 0 <= i < ps.len() ==> field_readable(f, #[trigger] ps[i]),
    ensures
        no_word_start(spec_formatted(f, ps)),
    decreases ps.len(),
{
    if ps.len() == 0 {
        assert(spec_formatted(f, ps) =~= Seq::<u8>::empty());
    } else {
        lemma_formatted_front(f, ps);
        assert(field_readable(f, ps[0]));
        assert forall|i: int| 0 <= i < ps.drop_first().len() implies field_readable(
            f,
            #[trigger] ps.drop_first()[i],
        ) by {
            assert(ps.drop_first()[i] == ps[i + 1]);
        }
        lemma_formatted_no_word_start(f, ps.drop_first());
        lemma_line_no_word_start(f, ps[0], spec_formatted(f, ps.drop_first()));
    }
}

/// Where the first value fragment cannot start: after a line ending that is
/// not followed by a space.
proof fn lemma_value_ends(s: Seq<u8>)
    requires
        s.len() >= 2,
        s[0] == 0x0D,
        s[1] == 0x0A,
        s.len() == 2 || !is_space_byte(s[2]),
        no_word_start(s),
    ensures
        field_value(s) == Some::<(nat, Seq<u8>)>((0, seq![])),
{
    assert(quoted_len(s) is None);
    assert(encoded_word_len(s) is None);
    let after = s.skip(2);
    assert(span(after, ByteClass::Space) == 0);
    assert(folded_len(s) is None);
    assert(span(s, ByteClass::Space) == 0);
    assert(word_space_len(s) is None);
    lemma_find_pair_props(s, 0x3D, 0x3F);
    assert(find_pair(s, 0x3D, 0x3F) is None);
    assert(span(s, ByteClass::NotQuoteOrNewline) == 0);
    assert(literal_len(s) is None);
    assert(value_step(s) is None);
}

/// A field line followed by bytes without `=?` that do not start with a
/// space parses as one field.
proof fn lemma_field_pair_line(f: HeaderFormatter, p: FieldPairView, rest: Seq<u8>)
    requires
        field_readable(f, p),
        no_word_start(spec_line_bytes(f, p) + rest),
        rest.len() == 0 || !is_space_byte(rest[0]),
    ensures
        field_pair(spec_line_bytes(f, p) + rest) == Some::<(FieldPairView, nat)>(
            (field_read_back(f, p), spec_line_bytes(f, p).len()),
        ),
{
    lemma_line_parts(f, p);
    let n = spec_name_bytes(f, p.name);
    let v = spec_value_bytes(f, p.value);
    let t = spec_separator(f, p).drop_first();
    let r = value_region(f, p);
    let s = spec_line_bytes(f, p) + rest;
    let k = n.len() as int;
    assert(t.len() == 0 || t =~= seq![0x20u8]);
    assert(s =~= n + seq![0x3Au8] + r + seq![0x0Du8, 0x0Au8] + rest);
    assert forall|j: int| 0 <= j < k implies s[j] != 0x3Au8 by {
        assert(s[j] == n[j]);
        assert(is_token_byte(n[j]));
    }
    lemma_find_byte(s, 0x3A, k);
    let rest1 = s.skip(k + 1);
    assert(rest1 =~= r + seq![0x0Du8, 0x0Au8] + rest);
    lemma_no_word_start_skip(s, k + 1);
    assert forall|i: int| 0 <= i < r.len() implies #[trigger] r[i] != 0x22 && r[i] != 0x0D && r[i]
        != 0x0A by {
        if i >= t.len() {
            assert(r[i] == v[i - t.len()]);
        }
    }
    let tail = seq![0x0Du8, 0x0Au8] + rest;
    assert(rest1.skip(r.len() as int) =~= tail);
    lemma_no_word_start_skip(rest1, r.len() as int);
    assert(tail.len() == 2 || !is_space_byte(tail[2])) by {
        if rest.len() > 0 {
            assert(tail[2] == rest[0]);
        }
    }
    lemma_value_ends(tail);
    if r.len() > 0 {
        assert(quoted_len(rest1) is None);
        assert(!pair_at(rest1, 0, 0x3D, 0x3F));
        assert(encoded_word_len(rest1) is None);
        assert(line_ending_len(rest1) == 0);
        assert(folded_len(rest1) is None);
        let sp = span(rest1, ByteClass::Space);
        crate::scan::lemma_span_props(rest1, ByteClass::Space);
        assert(!pair_at(rest1, sp as int, 0x3D, 0x3F));
        assert(word_space_len(rest1) is None);
        assert forall|j: int| 0 <= j < r.len() implies in_class(
            ByteClass::NotQuoteOrNewline,
            #[trigger] rest1[j],
        ) by {
            assert(rest1[j] == r[j]);
        }
        lemma_span(rest1, ByteClass::NotQuoteOrNewline, r.len() as int);
        lemma_find_pair_props(rest1, 0x3D, 0x3F);
        assert(literal_len(rest1) == Some(r.len()));
        assert(rest1.take(r.len() as int) =~= r);
        assert(value_step(rest1) == Some::<(nat, Seq<u8>)>((r.len(), r)));
        assert(r + Seq::<u8>::empty() =~= r);
        assert(field_value(rest1) == Some::<(nat, Seq<u8>)>((r.len(), r)));
    } else {
        assert(rest1 =~= tail);
        assert(r =~= Seq::<u8>::empty());
    }
    assert(line_ending_len(rest1.skip(r.len() as int)) == 2);
    assert(s.take(k) =~= n);
    assert(rest1.take(r.len() as int) =~= r);
}

/// Formatted readable fields parse, all of them, into the fields read back.
#[verifier::rlimit(40)]
proof fn lemma_field_pairs_formatted(f: HeaderFormatter, ps: Seq<FieldPairView>)
    requires
        forall|i: int| 0 <= i < ps.len() ==> field_readable(f, #[trigger] ps[i]),
    ensures
        field_pairs(spec_formatted(f, ps)) == (
            ps.map_values(|p: FieldPairView| field_read_back(f, p)),
            spec_formatted(f, ps).len(),
        ),
    decreases ps.len(),
{
    if ps.len() == 0 {
        let s = spec_formatted(f, ps);
        assert(s =~= Seq::<u8>::empty());
        assert(find_byte(s, 0x3A) is None);
        assert(ps.map_values(|p: FieldPairView| field_read_back(f, p)) =~= Seq::<FieldPairView>::empty());
    } else {
        let rest_ps = ps.drop_first();
        assert forall|i: int| 0 <= i < rest_ps.len() implies field_readable(f, #[trigger] rest_ps[i])
            by {
            assert(rest_ps[i] == ps[i + 1]);
        }
        lemma_formatted_front(f, ps);
        lemma_field_pairs_formatted(f, rest_ps);
        lemma_formatted_no_word_start(f, ps);
        let rest = spec_formatted(f, rest_ps);
        assert(rest.len() == 0 || !is_space_byte(rest[0])) by {
            if rest_ps.len() > 0 {
                lemma_formatted_front(f, rest_ps);
                assert(field_readable(f, rest_ps[0]));
                lemma_line_start(f, rest_ps[0]);
                assert(rest[0] == spec_line_bytes(f, rest_ps[0])[0]);
            }
        }
        lemma_field_pair_line(f, ps[0], rest);
        lemma_line_start(f, ps[0]);
        let line = spec_line_bytes(f, ps[0]);
        assert((line + rest).skip(line.len() as int) =~= rest);
        assert(ps.map_values(|p: FieldPairView| field_read_back(f, p)) =~= seq![field_read_back(f, ps[0])]
            + rest_ps.map_values(|p: FieldPairView| field_read_back(f, p)));
    }
}

/// Header fields written by a formatter parse back, all of them and in
/// order, when each name is made of token characters and each value holds
/// no DQUOTE, CR or LF and no `=?`: each field read back has the written
/// name bytes as its raw name, the bytes after the colon as its raw value,
/// and these bytes decoded and trimmed as its text.
pub proof fn law_formatted_fields_parse_back(f: HeaderFormatter, ps: Seq<FieldPairView>)
    requires
        forall|i: int| 0 <= i < ps.len() ==> field_readable(f, #[trigger] ps[i]),
    ensures
        spec_parse_header(spec_formatted(f, ps)) == Ok::<
            Seq<FieldPairView>,
            crate::error::ParseErrorView,
        >(ps.map_values(|p: FieldPairView| field_read_back(f, p))),
{
    lemma_field_pairs_formatted(f, ps);
}

} // verus!
