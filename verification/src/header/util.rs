//! Header buffer helpers.
use vstd::prelude::*;

use crate::io::{
    lemma_until_len_bounds, read_until_at_most, until_hits_end, until_len, ByteBufRead, ByteRead,
    IoError, IoErrorKind,
};
use crate::scan::{find_byte, lemma_find_byte_props};

verus! {

/// Length of the line at the start of `q`: up to and including the first LF,
/// else all of `q`.
pub open spec fn line_len(q: Seq<u8>) -> nat {
    match find_byte(q, 0x0A) {
        Some(i) => i + 1,
        None => q.len(),
    }
}

/// Offset just past the header boundary in `q`: the end of the first line
/// that starts with CR or LF.
pub open spec fn boundary_end(q: Seq<u8>) -> Option<nat>
    decreases q.len(),
{
    if q.len() == 0 {
        None
    } else {
        let l = line_len(q);
        if q[0] == 0x0D || q[0] == 0x0A {
            Some(l)
        } else if 0 < l <= q.len() {
            match boundary_end(q.skip(l as int)) {
                Some(m) => Some(l + m),
                None => None,
            }
        } else {
            None
        }
    }
}

/// The first `limit` bytes of `p`, or all of `p` when it is shorter.
pub open spec fn limited(p: Seq<u8>, limit: nat) -> Seq<u8> {
    if limit <= p.len() {
        p.take(limit as int)
    } else {
        p
    }
}

proof fn lemma_line_len(q: Seq<u8>)
    ensures
        line_len(q) <= q.len(),
        q.len() > 0 ==> line_len(q) > 0,
        line_len(q) < q.len() ==> q[line_len(q) - 1] == 0x0A,
        forall|j: int| 0 <= j < line_len(q) - 1 ==> q[j] != 0x0A,
        line_len(q) == q.len() && q.len() > 0 && q[q.len() - 1] != 0x0A ==> find_byte(q, 0x0A) is None,
{
    lemma_find_byte_props(q, 0x0A);
}

proof fn lemma_limited_skip(p: Seq<u8>, limit: nat, t: nat)
    requires
        t <= limited(p, limit).len(),
    ensures
        limited(p.skip(t as int), (limit - t) as nat) == limited(p, limit).skip(t as int),
        until_len(p.skip(t as int), 0x0A, (limit - t) as nat) == line_len(limited(p, limit).skip(t as int)),
        until_hits_end(p.skip(t as int), 0x0A, (limit - t) as nat) == (find_byte(p.skip(t as int), 0x0A) is None
            && p.len() < limit),
{
    if limit <= p.len() {
        assert(p.skip(t as int).take(limit - t) =~= p.take(limit as int).skip(t as int));
    }
}

/// The header boundary lies within the bytes searched.
pub proof fn lemma_boundary_end_bounds(q: Seq<u8>)
    ensures
        boundary_end(q) matches Some(n) ==> 0 < n <= q.len(),
    decreases q.len(),
{
    lemma_line_len(q);
    if q.len() > 0 && !(q[0] == 0x0D || q[0] == 0x0A) {
        lemma_boundary_end_bounds(q.skip(line_len(q) as int));
    }
}

/// Reads bytes into `output` until the header boundary has been found.
///
/// Bytes are read line by line, stopping after the CRLF (or LF) line that
/// separates the fields and message body; `output` holds that separator too.
/// At most `limit` bytes are read.
///
/// Returns the number of bytes read, or an error when the boundary was not
/// found: `UnexpectedEof` at an early end of input, `InvalidData` when the
/// input exceeds `limit`.
pub fn read_until_boundary<R: ByteBufRead>(input: &mut R, output: &mut Vec<u8>, limit: u64) -> (r:
    Result<u64, IoError>)
    requires
        old(input).inv(),
    ensures
        final(input).inv(),
        ({
            let p = old(input).pending();
            let q = limited(p, limit as nat);
            let fails_at_end = old(input).fails() && p.len() < limit;
            match boundary_end(q) {
                Some(n) => if fails_at_end && n == p.len() && p[n - 1] != 0x0A {
                    r is Err && final(output)@ == old(output)@ + p
                } else {
                    &&& r == Ok::<u64, IoError>(n as u64)
                    &&& final(output)@ == old(output)@ + q.take(n as int)
                    &&& final(input).pending() == p.skip(n as int)
                    &&& final(input).fails() == old(input).fails()
                },
                None => {
                    &&& r is Err
                    &&& final(output)@ == old(output)@ + q
                    &&& !fails_at_end ==> (r matches Err(e) && e@ == (if q.len() < limit {
                        IoErrorKind::UnexpectedEof
                    } else {
                        IoErrorKind::InvalidData
                    }))
                },
            }
        }),
{
    let ghost p = input.pending();
    let ghost lim = limit as nat;
    let ghost q = limited(p, lim);
    let ghost start = output@;
    let ghost fails = input.fails();
    proof {
        input.lemma_pending_len();
        assert(q.skip(0) =~= q);
    }
    let mut total: u64 = 0;
    loop
        invariant
            input.inv(),
            p == old(input).pending(),
            lim == limit,
            q == limited(p, lim),
            start == old(output)@,
            fails == old(input).fails(),
            p.len() <= u64::MAX,
            total <= q.len(),
            output@ == start + q.take(total as int),
            input.pending() == p.skip(total as int),
            input.fails() == fails,
            boundary_end(q) == match boundary_end(q.skip(total as int)) {
                Some(m) => Some((total + m) as nat),
                None => None::<nat>,
            },
        decreases q.len() - total,
    {
        let ghost t = total as nat;
        let ghost qt = q.skip(total as int);
        proof {
            lemma_limited_skip(p, lim, t);
            lemma_line_len(qt);
            lemma_until_len_bounds(p.skip(total as int), 0x0A, (lim - t) as nat);
        }
        let line_start = output.len();
        let ghost o0 = output@;
        let amount = match read_until_at_most(input, 0x0A, output, limit - total) {
            Ok(a) => a,
            Err(e) => {
                proof {
                    assert(qt =~= p.skip(total as int));
                    assert(q =~= p);
                    assert(output@ =~= start + p);
                    lemma_boundary_end_bounds(qt);
                    if qt.len() > 0 {
                        lemma_find_byte_props(qt, 0x0A);
                        if qt[0] == 0x0D || qt[0] == 0x0A {
                            assert(p[p.len() - 1] == qt[qt.len() - 1]);
                        } else {
                            assert(qt.skip(line_len(qt) as int).len() == 0);
                        }
                    }
                }
                return Err(e);
            },
        };
        let olen = output.len();
        proof {
            assert(olen == o0.len() + until_len(p.skip(total as int), 0x0A, (lim - t) as nat));
            assert(p.skip(total as int).take(amount as int) =~= qt.take(amount as int));
            assert(q.take(total + amount) =~= q.take(total as int) + qt.take(amount as int));
            assert(output@ =~= start + q.take(total + amount));
            assert(p.skip(total as int).skip(amount as int) =~= p.skip(total + amount));
            assert(qt.skip(amount as int) =~= q.skip(total + amount));
        }
        if amount == 0 {
            total = total + amount as u64;
            assert(qt.len() == 0);
            if total < limit {
                return Err(IoError::new(IoErrorKind::UnexpectedEof));
            } else {
                return Err(IoError::new(IoErrorKind::InvalidData));
            }
        }
        let first = output[line_start];
        assert(first == qt[0]);
        total = total + amount as u64;
        if first == 0x0D || first == 0x0A {
            proof {
                if fails && total == p.len() && p[total - 1] != 0x0A && p.len() < lim {
                    assert(p[total - 1] == qt[amount - 1]);
                    assert(find_byte(p.skip(t as int), 0x0A) is None);
                    assert(false);
                }
            }
            return Ok(total);
        }
    }
}

/// The bytes with one trailing CRLF or LF removed.
pub open spec fn spec_trim_trailing_crlf(buf: Seq<u8>) -> Seq<u8> {
    if buf.len() >= 2 && buf[buf.len() - 2] == 0x0D && buf[buf.len() - 1] == 0x0A {
        buf.take(buf.len() - 2)
    } else if buf.len() >= 1 && buf[buf.len() - 1] == 0x0A {
        buf.take(buf.len() - 1)
    } else {
        buf
    }
}

/// Trims the trailing CRLF or LF.
///
/// `b"abc\r\n\r\n"` becomes `b"abc\r\n"`, `b"abc\n"` becomes `b"abc"`.
pub fn trim_trailing_crlf(buf: &[u8]) -> (r: &[u8])
    ensures
        r@ == spec_trim_trailing_crlf(buf@),
{
    let len = buf.len();
    if len >= 2 && buf[len - 2] == 0x0D && buf[len - 1] == 0x0A {
        &buf[0..len - 2]
    } else if len >= 1 && buf[len - 1] == 0x0A {
        &buf[0..len - 1]
    } else {
        buf
    }
}

} // verus!
