//! What decoding gives back of data in chunked transfer coding.
use vstd::prelude::*;

use super::chunked::{chunked_data, chunked_from_line, spec_chunk_metadata, trailer_ok, ChunkMetadataView};
use super::pc::{chunk_ext, chunk_exts, chunk_line, span_at};
use crate::header::{boundary_end, limited, line_len, spec_parse_header, spec_trim_trailing_crlf};
use crate::io::{until_hits_end, until_len};
use crate::num::{hex_digit_value, hex_value, numeral_value};
use crate::scan::{find_byte, in_class, lemma_find_byte, lemma_span, line_ending_len, ByteClass};

verus! {

/// The lower-case hexadecimal digit, as a byte, for `d` (less than 16).
pub open spec fn hex_digit_byte(d: nat) -> u8 {
    if d < 10 {
        (d + 0x30) as u8
    } else {
        (d - 10 + 0x61) as u8
    }
}

/// Lower-case hexadecimal digits of `v`, most significant first, without
/// leading zeros ("0" for zero).
pub open spec fn hex_numeral(v: nat) -> Seq<u8>
    decreases v,
{
    if v < 16 {
        seq![hex_digit_byte(v)]
    } else {
        hex_numeral(v / 16).push(hex_digit_byte(v % 16))
    }
}

/// One chunk of data in chunked transfer coding: its size in hexadecimal,
/// a line ending, the data and a line ending.
pub open spec fn chunk_coded(data: Seq<u8>) -> Seq<u8> {
    hex_numeral(data.len()) + seq![0x0Du8, 0x0Au8] + data + seq![0x0Du8, 0x0Au8]
}

/// Chunks of data in chunked transfer coding, ended by the last chunk
/// (size zero) and an empty trailer.
pub open spec fn chunked_coded(chunks: Seq<Seq<u8>>) -> Seq<u8>
    decreases chunks.len(),
{
    if chunks.len() == 0 {
        seq![0x30u8, 0x0Du8, 0x0Au8, 0x0Du8, 0x0Au8]
    } else {
        chunk_coded(chunks[0]) + chunked_coded(chunks.drop_first())
    }
}

/// Powers of sixteen.
pub open spec fn pow16(n: nat) -> nat
    decreases n,
{
    if n == 0 {
        1
    } else {
        16 * pow16((n - 1) as nat)
    }
}

/// The hexadecimal digits of a number are hexadecimal digit bytes, read
/// back as the number, and there are at most `n` of them below `16^n`.
proof fn lemma_hex_numeral(v: nat, n: nat)
    requires
        n >= 1,
        v < pow16(n),
    ensures
        1 <= hex_numeral(v).len() <= n,
        forall|i: int|
            0 <= i < hex_numeral(v).len() ==> in_class(ByteClass::Hex, #[trigger] hex_numeral(v)[i]),
        numeral_value(hex_numeral(v), 16) == v,
    decreases v,
{
    if v < 16 {
        let x = hex_digit_byte(v);
        assert(seq![x].drop_last() =~= Seq::<u8>::empty());
        assert(numeral_value(seq![x], 16) == numeral_value(Seq::<u8>::empty(), 16) * 16
            + hex_digit_value(x));
    } else {
        assert(n >= 2) by {
            if n == 1 {
                assert(pow16(1) == 16 * pow16(0));
            }
        }
        assert(v / 16 < pow16((n - 1) as nat)) by {
            assert(pow16(n) == 16 * pow16((n - 1) as nat));
            vstd::arithmetic::div_mod::lemma_fundamental_div_mod(v as int, 16);
        }
        lemma_hex_numeral(v / 16, (n - 1) as nat);
        let d = hex_numeral(v / 16);
        let x = hex_digit_byte(v % 16);
        assert(d.push(x).drop_last() =~= d);
        assert(hex_numeral(v) == d.push(x));
        assert(hex_digit_value(x) == v % 16);
        assert(numeral_value(hex_numeral(v), 16) == numeral_value(d, 16) * 16 + v % 16);
        vstd::arithmetic::div_mod::lemma_fundamental_div_mod(v as int, 16);
        assert((v / 16) * 16 == 16 * (v / 16)) by (nonlinear_arith);
    }
}

/// The largest chunk size is below `16^16`.
proof fn lemma_pow16_16()
    ensures
        pow16(16) == 0x1_0000_0000_0000_0000,
{
    reveal_with_fuel(pow16, 17);
}

/// A chunk-size line holding only a hexadecimal size reads as that size,
/// and the line is read to its line ending.
proof fn lemma_size_line(v: nat, rest: Seq<u8>)
    requires
        v <= u64::MAX,
    ensures
        ({
            let s = hex_numeral(v) + seq![0x0Du8, 0x0Au8] + rest;
            let k = hex_numeral(v).len() + 2;
            &&& until_len(s, 0x0A, 4096) == k
            &&& !until_hits_end(s, 0x0A, 4096)
            &&& k < 4096
            &&& k <= s.len()
            &&& s.take(k as int) == hex_numeral(v) + seq![0x0Du8, 0x0Au8]
            &&& spec_chunk_metadata(s.take(k as int)) == Some(
                ChunkMetadataView { length: v as u64, parameters: seq![] },
            )
        }),
{
    lemma_pow16_16();
    lemma_hex_numeral(v, 16);
    let h = hex_numeral(v);
    let line = h + seq![0x0Du8, 0x0Au8];
    let s = line + rest;
    let hl = h.len() as int;
    let q = if 4096 <= s.len() {
        s.take(4096)
    } else {
        s
    };
    assert forall|j: int| 0 <= j < hl + 1 implies q[j] != 0x0Au8 by {
        if j < hl {
            assert(q[j] == h[j]);
        } else {
            assert(q[j] == 0x0Du8);
        }
    }
    assert(q[hl + 1] == 0x0Au8);
    lemma_find_byte(q, 0x0A, hl + 1);
    assert forall|j: int| 0 <= j < hl + 1 implies s[j] != 0x0Au8 by {
        assert(s[j] == q[j]);
    }
    lemma_find_byte(s, 0x0A, hl + 1);
    assert(s.take(hl + 2) =~= line);
    assert forall|j: int| 0 <= j < hl implies in_class(ByteClass::Hex, #[trigger] line[j]) by {
        assert(line[j] == h[j]);
    }
    assert(line.skip(0) =~= line);
    lemma_span(line, ByteClass::Hex, hl);
    assert(span_at(line, 0, ByteClass::Hex) == hl);
    assert(line.take(hl) =~= h);
    let after = line.skip(hl);
    assert(after =~= seq![0x0Du8, 0x0Au8]);
    assert(span_at(after, 0, ByteClass::Space) == 0) by {
        assert(after.skip(0) =~= after);
        lemma_span(after, ByteClass::Space, 0);
    }
    assert(chunk_ext(after) is None);
    assert(chunk_exts(after) == (Seq::<(Seq<char>, Seq<char>)>::empty(), 0nat));
    assert(line.skip(hl + 0) =~= after);
    assert(line_ending_len(after) == 2);
    assert(hex_value(line.take(hl)) == v);
    assert(chunk_line(line) == Some::<(u64, Seq<(Seq<char>, Seq<char>)>)>(
        (v as u64, Seq::<(Seq<char>, Seq<char>)>::empty()),
    ));
}

/// An empty trailer is read without error.
proof fn lemma_empty_trailer(rest: Seq<u8>, fails: bool)
    ensures
        trailer_ok(seq![0x0Du8, 0x0Au8] + rest, fails),
{
    let t = seq![0x0Du8, 0x0Au8] + rest;
    let q = limited(t, 32768);
    assert(q[0] == 0x0Du8 && q[1] == 0x0Au8);
    lemma_find_byte(q, 0x0A, 1);
    assert(line_len(q) == 2);
    assert(boundary_end(q) == Some(2nat));
    assert(q.take(2) =~= seq![0x0Du8, 0x0Au8]);
    assert(spec_trim_trailing_crlf(q.take(2)) =~= Seq::<u8>::empty());
    let e = Seq::<u8>::empty();
    assert(find_byte(e, 0x3A) is None);
    assert(spec_parse_header(e) is Ok);
}

/// The last chunk and an empty trailer decode to no data and end the body.
proof fn lemma_last_chunk(rest: Seq<u8>, fails: bool)
    ensures
        chunked_from_line(chunked_coded(Seq::<Seq<u8>>::empty()) + rest, fails) == (
            Seq::<u8>::empty(),
            false,
        ),
{
    let s = chunked_coded(Seq::<Seq<u8>>::empty()) + rest;
    assert(s =~= hex_numeral(0) + seq![0x0Du8, 0x0Au8] + (seq![0x0Du8, 0x0Au8] + rest));
    lemma_size_line(0, seq![0x0Du8, 0x0Au8] + rest);
    assert(s.skip(3) =~= seq![0x0Du8, 0x0Au8] + rest);
    lemma_empty_trailer(rest, fails);
}

/// A chunk decodes to its data, followed by what the rest decodes to.
#[verifier::rlimit(50)]
proof fn lemma_chunk_step(c: Seq<u8>, more: Seq<u8>, fails: bool)
    requires
        0 < c.len() <= u64::MAX,
    ensures
        chunked_from_line(chunk_coded(c) + more, fails) == (
            c + chunked_from_line(more, fails).0,
            chunked_from_line(more, fails).1,
        ),
{
    let s = chunk_coded(c) + more;
    let v = c.len();
    let tail = c + seq![0x0Du8, 0x0Au8] + more;
    assert(s =~= hex_numeral(v) + seq![0x0Du8, 0x0Au8] + tail);
    lemma_size_line(v, tail);
    let k = hex_numeral(v).len() + 2;
    assert(s.skip(k as int) =~= tail);
    let r = tail.skip(v as int);
    assert(r =~= seq![0x0Du8, 0x0Au8] + more);
    lemma_find_byte(r.take(2), 0x0A, 1);
    lemma_find_byte(r, 0x0A, 1);
    assert(until_len(r, 0x0A, 2) == 2);
    assert(r.skip(2) =~= more);
    assert(tail.take(v as int) =~= c);
}

/// Data in chunked transfer coding decodes to the data of its chunks, in
/// order, and reading then ends without error, whatever follows the
/// trailer; each chunk is non-empty and its size fits in a `u64`.
pub proof fn law_chunked_coding_decodes(chunks: Seq<Seq<u8>>, rest: Seq<u8>, fails: bool)
    requires
        forall|i: int| 0 <= i < chunks.len() ==> 0 < (#[trigger] chunks[i]).len() <= u64::MAX,
    ensures
        chunked_from_line(chunked_coded(chunks) + rest, fails) == (chunks.flatten(), false),
    decreases chunks.len(),
{
    if chunks.len() == 0 {
        assert(chunks =~= Seq::<Seq<u8>>::empty());
        lemma_last_chunk(rest, fails);
    } else {
        let c = chunks[0];
        let others = chunks.drop_first();
        assert forall|i: int| 0 <= i < others.len() implies 0 < (#[trigger] others[i]).len()
            <= u64::MAX by {
            assert(others[i] == chunks[i + 1]);
        }
        law_chunked_coding_decodes(others, rest, fails);
        let more = chunked_coded(others) + rest;
        lemma_chunk_step(c, more, fails);
        assert(chunked_coded(chunks) + rest =~= chunk_coded(c) + more);
    }
}

} // verus!
