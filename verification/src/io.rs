//! Byte streams: the reader traits, an in-memory source and line reading.
//!
//! A reader is modelled by the bytes it still yields (`pending`) and by
//! whether, once those are used up, reading fails rather than ends (`fails`).
use vstd::prelude::*;

use crate::scan::find_byte;

verus! {

/// Kinds of errors reported by the readers.
#[derive(Debug, Clone, Copy, PartialEq, Eq, Structural)]
pub enum IoErrorKind {
    /// The data ended before the operation could complete.
    UnexpectedEof,
    /// The data was malformed or exceeded a limit.
    InvalidData,
    /// Any other error.
    Other,
}

/// Error of a read operation.
#[derive(Debug)]
pub struct IoError {
    kind: IoErrorKind,
}

impl View for IoError {
    type V = IoErrorKind;

    closed spec fn view(&self) -> IoErrorKind {
        self.kind
    }
}

impl IoError {
    /// Creates an error of the given kind.
    pub fn new(kind: IoErrorKind) -> (r: Self)
        ensures
            r@ == kind,
    {
        IoError { kind }
    }

    /// Returns the kind of the error.
    pub fn kind(&self) -> (r: IoErrorKind)
        ensures
            r == self@,
    {
        self.kind
    }
}

/// The smaller of two lengths.
pub open spec fn min_len(a: nat, b: nat) -> nat {
    if a < b {
        a
    } else {
        b
    }
}

/// A source of bytes, read in order.
pub trait ByteRead: Sized {
    /// Whether the internal state is consistent.
    spec fn inv(&self) -> bool;

    /// The bytes that reads still yield, in order.
    spec fn pending(&self) -> Seq<u8>;

    /// Whether reading fails, rather than ends, once `pending` is used up.
    spec fn fails(&self) -> bool;

    /// Whether a read fills the buffer as far as the pending bytes allow.
    spec fn reads_fully(&self) -> bool;

    /// The pending bytes can be counted in a `u64`.
    proof fn lemma_pending_len(&self)
        requires
            self.inv(),
        ensures
            self.pending().len() <= u64::MAX,
    ;

    /// Pull some bytes from this source into `buf`, returning how many were read.
    ///
    /// Zero is returned only for an empty `buf` or at the end of the data.
    fn read(&mut self, buf: &mut [u8]) -> (r: Result<usize, IoError>)
        requires
            old(self).inv(),
        ensures
            final(self).inv(),
            final(buf)@.len() == old(buf)@.len(),
            match r {
                Ok(n) => {
                    &&& n <= old(buf)@.len()
                    &&& n <= old(self).pending().len()
                    &&& final(buf)@.take(n as int) == old(self).pending().take(n as int)
                    &&& final(buf)@.skip(n as int) == old(buf)@.skip(n as int)
                    &&& final(self).pending() == old(self).pending().skip(n as int)
                    &&& final(self).fails() == old(self).fails()
                    &&& (n == 0 ==> old(buf)@.len() == 0 || (old(self).pending().len() == 0
                        && !old(self).fails()))
                    &&& (old(self).reads_fully() ==> n == min_len(
                        old(buf)@.len(),
                        old(self).pending().len(),
                    ))
                },
                Err(_) => {
                    &&& old(self).pending().len() == 0
                    &&& old(self).fails()
                    &&& final(self).pending().len() == 0
                    &&& final(self).fails()
                },
            },
    ;
}

/// A source of bytes with an internal buffer.
pub trait ByteBufRead: ByteRead {
    /// The bytes held in the internal buffer: a prefix of `pending`.
    spec fn buffered(&self) -> Seq<u8>;

    /// Returns the internal buffer, filling it from the source when it is empty.
    ///
    /// The buffer is empty only at the end of the data.
    fn fill_buf(&mut self) -> (r: Result<Vec<u8>, IoError>)
        requires
            old(self).inv(),
        ensures
            final(self).inv(),
            final(self).pending() == old(self).pending(),
            final(self).fails() == old(self).fails(),
            match r {
                Ok(b) => {
                    &&& b@ == final(self).buffered()
                    &&& b@.len() <= old(self).pending().len()
                    &&& b@ == old(self).pending().take(b@.len() as int)
                    &&& (b@.len() == 0 ==> old(self).pending().len() == 0 && !old(self).fails())
                },
                Err(_) => old(self).pending().len() == 0 && old(self).fails(),
            },
    ;

    /// The buffer is a prefix of the pending bytes.
    proof fn lemma_buffered(&self)
        requires
            self.inv(),
        ensures
            self.buffered().len() <= self.pending().len(),
            self.buffered() == self.pending().take(self.buffered().len() as int),
    ;

    /// Marks `amount` bytes of the internal buffer as read.
    fn consume(&mut self, amount: usize)
        requires
            old(self).inv(),
            amount <= old(self).buffered().len(),
        ensures
            final(self).inv(),
            final(self).pending() == old(self).pending().skip(amount as int),
            final(self).fails() == old(self).fails(),
    ;
}

/// Copies `src[from..from + n]` into `dst[at..at + n]`.
pub fn copy_into(dst: &mut [u8], at: usize, src: &[u8], from: usize, n: usize)
    requires
        from + n <= src@.len(),
        at + n <= old(dst)@.len(),
    ensures
        final(dst)@ == old(dst)@.take(at as int) + src@.subrange(from as int, from + n)
            + old(dst)@.skip(at + n),
{
    let dlen = dst.len();
    let slen = src.len();
    let mut i: usize = 0;
    while i < n
        invariant
            i <= n,
            dlen == dst@.len(),
            slen == src@.len(),
            from + n <= src@.len(),
            at + n <= dst@.len(),
            dst@.len() == old(dst)@.len(),
            forall|j: int| 0 <= j < at ==> dst@[j] == old(dst)@[j],
            forall|j: int| at + n <= j < dst@.len() ==> dst@[j] == old(dst)@[j],
            forall|j: int| at <= j < at + i ==> #[trigger] dst@[j] == src@[from + j - at],
        decreases n - i,
    {
        dst[at + i] = src[from + i];
        i = i + 1;
    }
    assert(dst@ =~= old(dst)@.take(at as int) + src@.subrange(from as int, from + n)
        + old(dst)@.skip(at + n));
}

/// Reads exactly enough bytes to fill `buf`.
///
/// Returns `UnexpectedEof` when the data ends first (or the source's own
/// error when it fails there).
pub fn read_exact<R: ByteRead>(reader: &mut R, buf: &mut [u8]) -> (r: Result<(), IoError>)
    requires
        old(reader).inv(),
    ensures
        final(reader).inv(),
        final(buf)@.len() == old(buf)@.len(),
        final(reader).pending().len() <= old(reader).pending().len(),
        old(buf)@.len() <= old(reader).pending().len() ==> {
            &&& r is Ok
            &&& final(buf)@ == old(reader).pending().take(old(buf)@.len() as int)
            &&& final(reader).pending() == old(reader).pending().skip(old(buf)@.len() as int)
            &&& final(reader).fails() == old(reader).fails()
        },
        old(buf)@.len() > old(reader).pending().len() ==> (r matches Err(e) && (
            !old(reader).fails() ==> e@ == IoErrorKind::UnexpectedEof)),
{
    let len = buf.len();
    let ghost p0 = reader.pending();
    let mut filled: usize = 0;
    while filled < len
        invariant
            reader.inv(),
            buf@.len() == len,
            len == old(buf)@.len(),
            filled <= len,
            filled <= p0.len(),
            buf@.take(filled as int) == p0.take(filled as int),
            reader.pending() == p0.skip(filled as int),
            reader.fails() == old(reader).fails(),
            p0 == old(reader).pending(),
        decreases len - filled,
    {
        let mut tmp: Vec<u8> = Vec::new();
        tmp.resize(len - filled, 0u8);
        let ghost before = buf@;
        match reader.read(tmp.as_mut_slice()) {
            Ok(n) => {
                if n == 0 {
                    return Err(IoError::new(IoErrorKind::UnexpectedEof));
                }
                copy_into(buf, filled, tmp.as_slice(), 0, n);
                proof {
                    assert(buf@.take(filled + n) =~= p0.take(filled + n));
                    assert(p0.skip(filled as int).skip(n as int) =~= p0.skip(filled + n));
                }
                filled = filled + n;
            },
            Err(e) => {
                return Err(e);
            },
        }
    }
    assert(buf@ =~= buf@.take(filled as int));
    Ok(())
}

/// Reads all bytes until the end of the data, appending them to `out`.
///
/// Returns the number of bytes read; on a failing source the bytes before
/// the failure have been appended.
pub fn read_to_end<R: ByteRead>(reader: &mut R, out: &mut Vec<u8>) -> (r: Result<usize, IoError>)
    requires
        old(reader).inv(),
    ensures
        final(reader).inv(),
        final(out)@ == old(out)@ + old(reader).pending(),
        final(reader).pending().len() == 0,
        final(reader).fails() == old(reader).fails(),
        match r {
            Ok(n) => {
                &&& n == old(reader).pending().len()
                &&& !old(reader).fails()
            },
            Err(_) => old(reader).fails(),
        },
{
    let ghost p0 = reader.pending();
    let start = out.len();
    loop
        invariant
            reader.inv(),
            start == old(out)@.len(),
            out@.len() >= start,
            out@ == old(out)@ + p0.take(out@.len() - start),
            out@.len() - start <= p0.len(),
            reader.pending() == p0.skip(out@.len() - start),
            reader.fails() == old(reader).fails(),
            p0 == old(reader).pending(),
        decreases reader.pending().len(),
    {
        let mut tmp: Vec<u8> = Vec::new();
        tmp.resize(4096, 0u8);
        let ghost k = out@.len() - start;
        match reader.read(tmp.as_mut_slice()) {
            Ok(n) => {
                if n == 0 {
                    assert(p0.take(k) =~= p0);
                    return Ok(out.len() - start);
                }
                let mut i: usize = 0;
                let ghost o1 = out@;
                while i < n
                    invariant
                        i <= n <= tmp@.len(),
                        out@ == o1 + tmp@.take(i as int),
                    decreases n - i,
                {
                    out.push(tmp[i]);
                    i = i + 1;
                    assert(out@ =~= o1 + tmp@.take(i as int));
                }
                proof {
                    assert(out@ =~= old(out)@ + p0.take(k + n));
                    assert(p0.skip(k).skip(n as int) =~= p0.skip(k + n));
                }
            },
            Err(e) => {
                assert(p0.take(k) =~= p0);
                return Err(e);
            },
        }
    }
}

/// An in-memory source of bytes with a read position.
#[derive(Debug)]
pub struct MemReader {
    data: Vec<u8>,
    pos: usize,
}

impl MemReader {
    /// Creates a reader positioned at the start of `data`.
    pub fn new(data: Vec<u8>) -> (r: Self)
        ensures
            r.inv(),
            r.pending() == data@,
            !r.fails(),
            r.spec_position() == 0,
    {
        let len = data.len();
        let r = MemReader { data, pos: 0 };
        assert(r.pending() =~= data@);
        r
    }

    /// Creates a reader over a copy of `data`.
    pub fn from_slice(data: &[u8]) -> (r: Self)
        ensures
            r.inv(),
            r.pending() == data@,
            !r.fails(),
            r.spec_position() == 0,
    {
        let mut v: Vec<u8> = Vec::new();
        v.extend_from_slice(data);
        assert(v@ =~= data@);
        MemReader::new(v)
    }

    /// The read position.
    pub closed spec fn spec_position(&self) -> nat {
        self.pos as nat
    }

    /// All the data, read or not.
    pub closed spec fn spec_data(&self) -> Seq<u8> {
        self.data@
    }

    /// Returns the read position.
    pub fn position(&self) -> (r: u64)
        requires
            self.inv(),
        ensures
            r == self.spec_position(),
            r == self.spec_data().len() - self.pending().len(),
    {
        self.pos as u64
    }

    /// Returns all the data, read or not.
    pub fn get_ref(&self) -> (r: &[u8])
        ensures
            r@ == self.spec_data(),
    {
        self.data.as_slice()
    }

    /// Returns the data.
    pub fn into_inner(self) -> (r: Vec<u8>)
        ensures
            r@ == self.spec_data(),
    {
        self.data
    }
}

impl ByteRead for MemReader {
    closed spec fn inv(&self) -> bool {
        self.pos <= self.data@.len() && self.data@.len() <= usize::MAX
    }

    closed spec fn pending(&self) -> Seq<u8> {
        self.data@.skip(self.pos as int)
    }

    closed spec fn fails(&self) -> bool {
        false
    }

    open spec fn reads_fully(&self) -> bool {
        true
    }

    proof fn lemma_pending_len(&self) {
    }

    fn read(&mut self, buf: &mut [u8]) -> (r: Result<usize, IoError>) {
        let avail = self.data.len() - self.pos;
        let n = if buf.len() < avail {
            buf.len()
        } else {
            avail
        };
        let ghost p = self.pending();
        copy_into(buf, 0, self.data.as_slice(), self.pos, n);
        self.pos = self.pos + n;
        proof {
            assert(buf@.take(n as int) =~= p.take(n as int));
            assert(self.pending() =~= p.skip(n as int));
        }
        Ok(n)
    }
}

impl ByteBufRead for MemReader {
    closed spec fn buffered(&self) -> Seq<u8> {
        let rest = self.data@.skip(self.pos as int);
        if rest.len() <= 4096 {
            rest
        } else {
            rest.take(4096)
        }
    }

    fn fill_buf(&mut self) -> (r: Result<Vec<u8>, IoError>) {
        let avail = self.data.len() - self.pos;
        let n = if avail <= 4096 {
            avail
        } else {
            4096
        };
        let mut out: Vec<u8> = Vec::new();
        out.extend_from_slice(&self.data.as_slice()[self.pos..self.pos + n]);
        assert(out@ =~= self.pending().take(n as int));
        assert(out@ =~= self.buffered());
        Ok(out)
    }

    proof fn lemma_buffered(&self) {
    }

    fn consume(&mut self, amount: usize) {
        self.pos = self.pos + amount;
        assert(self.pending() =~= old(self).pending().skip(amount as int));
    }
}

/// Number of bytes a read until `byte` of at most `limit` bytes takes from
/// `p`: up to and including the first `byte` among the first `limit` bytes,
/// else all of those.
pub open spec fn until_len(p: Seq<u8>, byte: u8, limit: nat) -> nat {
    let q = if limit <= p.len() {
        p.take(limit as int)
    } else {
        p
    };
    match find_byte(q, byte) {
        Some(i) => i + 1,
        None => q.len(),
    }
}

/// A read until `byte` takes no more than the data and the limit.
pub proof fn lemma_until_len_bounds(p: Seq<u8>, byte: u8, limit: nat)
    ensures
        until_len(p, byte, limit) <= p.len(),
        until_len(p, byte, limit) <= limit,
{
    let q = if limit <= p.len() {
        p.take(limit as int)
    } else {
        p
    };
    crate::scan::lemma_find_byte_props(q, byte);
}

/// Whether a read until `byte` of at most `limit` bytes runs into the end of `p`.
pub open spec fn until_hits_end(p: Seq<u8>, byte: u8, limit: nat) -> bool {
    find_byte(p, byte) is None && p.len() < limit
}

/// Reads bytes into `buf` until the delimiter `byte` or EOF is reached,
/// reading at most `limit` bytes; returns the number of bytes read.
pub fn read_until_at_most<R: ByteBufRead>(reader: &mut R, byte: u8, buf: &mut Vec<u8>, limit: u64) -> (r:
    Result<usize, IoError>)
    requires
        old(reader).inv(),
    ensures
        final(reader).inv(),
        ({
            let p = old(reader).pending();
            let k = until_len(p, byte, limit as nat);
            if until_hits_end(p, byte, limit as nat) && old(reader).fails() {
                r is Err && final(buf)@ == old(buf)@ + p
            } else {
                &&& final(buf)@ == old(buf)@ + p.take(k as int)
                &&& final(reader).pending() == p.skip(k as int)
                &&& final(reader).fails() == old(reader).fails()
                &&& r == Ok::<usize, IoError>(k as usize)
            }
        }),
{
    let ghost p0 = reader.pending();
    let ghost start = buf@;
    proof {
        reader.lemma_pending_len();
    }
    let mut amount: usize = 0;
    let mut found = false;
    while (amount as u64) < limit && !found
        invariant
            reader.inv(),
            p0 == old(reader).pending(),
            start == old(buf)@,
            p0.len() <= u64::MAX,
            amount <= limit,
            amount <= p0.len(),
            buf@ == start + p0.take(amount as int),
            reader.pending() == p0.skip(amount as int),
            reader.fails() == old(reader).fails(),
            found ==> amount >= 1 && p0[amount - 1] == byte,
            forall|j: int| 0 <= j < amount - (if found { 1int } else { 0int }) ==> p0[j] != byte,
        ensures
            found || amount == limit || amount == p0.len(),
            (!found && amount < limit) ==> !old(reader).fails(),
            amount <= limit,
            amount <= p0.len(),
            buf@ == start + p0.take(amount as int),
            reader.pending() == p0.skip(amount as int),
            reader.fails() == old(reader).fails(),
            found ==> amount >= 1 && p0[amount - 1] == byte,
            forall|j: int| 0 <= j < amount - (if found { 1int } else { 0int }) ==> p0[j] != byte,
            reader.inv(),
        decreases p0.len() - amount + (if found { 0int } else { 1int }),
    {
        let chunk = match reader.fill_buf() {
            Ok(c) => c,
            Err(e) => {
                assert(p0.take(amount as int) =~= p0);
                proof {
                    crate::scan::lemma_find_byte(p0, byte, p0.len() as int);
                }
                return Err(e);
            },
        };
        if chunk.len() == 0 {
            break;
        }
        let room = limit - amount as u64;
        let mut i: usize = 0;
        while i < chunk.len() && (i as u64) < room && !found
            invariant
                i <= chunk@.len(),
                i <= room,
                amount + chunk@.len() <= p0.len(),
                chunk@ == p0.skip(amount as int).take(chunk@.len() as int),
                found ==> i >= 1 && chunk@[i - 1] == byte,
                forall|j: int| 0 <= j < i - (if found { 1int } else { 0int }) ==> chunk@[j] != byte,
            decreases chunk@.len() - i,
        {
            if chunk[i] == byte {
                found = true;
            }
            i = i + 1;
        }
        let ghost b0 = buf@;
        let mut j: usize = 0;
        while j < i
            invariant
                j <= i <= chunk@.len(),
                buf@ == b0 + chunk@.take(j as int),
            decreases i - j,
        {
            buf.push(chunk[j]);
            j = j + 1;
            assert(buf@ =~= b0 + chunk@.take(j as int));
        }
        reader.consume(i);
        let blen = buf.len();
        proof {
            assert(chunk@.take(i as int) =~= p0.subrange(amount as int, amount + i));
            assert(buf@ =~= start + p0.take(amount + i));
            assert(p0.skip(amount as int).skip(i as int) =~= p0.skip(amount + i));
            assert forall|k: int| amount <= k < amount + i - (if found { 1int } else { 0int }) implies p0[k] != byte by {
                assert(chunk@[k - amount] == p0[k]);
            }
            if found {
                assert(chunk@[i - 1] == p0[amount + i - 1]);
            }
        }
        amount = amount + i;
    }
    proof {
        let lim = limit as nat;
        let q = if lim <= p0.len() { p0.take(lim as int) } else { p0 };
        if found {
            crate::scan::lemma_find_byte(q, byte, amount - 1);
        } else {
            assert(amount == q.len());
            crate::scan::lemma_find_byte(q, byte, amount as int);
            if amount < lim {
                assert(amount == p0.len());
                crate::scan::lemma_find_byte(p0, byte, p0.len() as int);
            }
        }
        if until_hits_end(p0, byte, lim) {
            crate::scan::lemma_find_byte_props(p0, byte);
        }
    }
    assert(until_len(p0, byte, limit as nat) == amount);
    Ok(amount)
}

/// Reads bytes into `buf` until the delimiter `byte` or EOF is reached,
/// reading at most `limit` bytes.
///
/// Returns an `InvalidData` error when the number of bytes read equals
/// `limit` and `buf` does not end with the delimiter.
pub fn read_limit_until<R: ByteBufRead>(reader: &mut R, byte: u8, buf: &mut Vec<u8>, limit: u64) -> (r:
    Result<usize, IoError>)
    requires
        old(reader).inv(),
    ensures
        final(reader).inv(),
        ({
            let p = old(reader).pending();
            let k = until_len(p, byte, limit as nat);
            if until_hits_end(p, byte, limit as nat) && old(reader).fails() {
                r is Err && final(buf)@ == old(buf)@ + p
            } else {
                &&& final(buf)@ == old(buf)@ + p.take(k as int)
                &&& final(reader).pending() == p.skip(k as int)
                &&& final(reader).fails() == old(reader).fails()
                &&& if k == limit && !(final(buf)@.len() > 0 && final(buf)@.last() == byte) {
                    r matches Err(e) && e@ == IoErrorKind::InvalidData
                } else {
                    r == Ok::<usize, IoError>(k as usize)
                }
            }
        }),
{
    let ghost b0 = buf@;
    let amount = read_until_at_most(reader, byte, buf, limit)?;
    let blen = buf.len();
    assert(amount == until_len(old(reader).pending(), byte, limit as nat)) by {
        lemma_until_len_bounds(old(reader).pending(), byte, limit as nat);
    }
    if amount as u64 == limit && !(blen > 0 && buf[blen - 1] == byte) {
        return Err(IoError::new(IoErrorKind::InvalidData));
    }
    Ok(amount)
}

/// Extension trait for buffered readers.
pub trait BufReadMoreExt: ByteBufRead {
    /// Reads bytes into `buf` until the delimiter `byte` or EOF is reached.
    ///
    /// In addition to reading until the delimiter, this function returns an
    /// error when the number of bytes read equals `limit` and the delimiter
    /// has not been reached.
    fn read_limit_until(&mut self, byte: u8, buf: &mut Vec<u8>, limit: u64) -> (r: Result<
        usize,
        IoError,
    >)
        requires
            old(self).inv(),
        ensures
            final(self).inv(),
            ({
                let p = old(self).pending();
                let k = until_len(p, byte, limit as nat);
                if until_hits_end(p, byte, limit as nat) && old(self).fails() {
                    r is Err && final(buf)@ == old(buf)@ + p
                } else {
                    &&& final(buf)@ == old(buf)@ + p.take(k as int)
                    &&& final(self).pending() == p.skip(k as int)
                    &&& final(self).fails() == old(self).fails()
                    &&& if k == limit && !(final(buf)@.len() > 0 && final(buf)@.last() == byte) {
                        r matches Err(e) && e@ == IoErrorKind::InvalidData
                    } else {
                        r == Ok::<usize, IoError>(k as usize)
                    }
                }
            }),
    ;
}

impl<R: ByteBufRead> BufReadMoreExt for R {
    fn read_limit_until(&mut self, byte: u8, buf: &mut Vec<u8>, limit: u64) -> (r: Result<
        usize,
        IoError,
    >) {
        read_limit_until(self, byte, buf, limit)
    }
}

/// Extension trait with the whole-buffer reads.
pub trait ReadExt: ByteRead {
    /// Reads exactly enough bytes to fill `buf`.
    fn read_exact(&mut self, buf: &mut [u8]) -> (r: Result<(), IoError>)
        requires
            old(self).inv(),
        ensures
            final(self).inv(),
            final(buf)@.len() == old(buf)@.len(),
            final(self).pending().len() <= old(self).pending().len(),
            old(buf)@.len() <= old(self).pending().len() ==> {
                &&& r is Ok
                &&& final(buf)@ == old(self).pending().take(old(buf)@.len() as int)
                &&& final(self).pending() == old(self).pending().skip(old(buf)@.len() as int)
                &&& final(self).fails() == old(self).fails()
            },
            old(buf)@.len() > old(self).pending().len() ==> (r matches Err(e) && (
                !old(self).fails() ==> e@ == IoErrorKind::UnexpectedEof)),
    ;

    /// Reads all bytes until the end of the data, appending them to `out`.
    fn read_to_end(&mut self, out: &mut Vec<u8>) -> (r: Result<usize, IoError>)
        requires
            old(self).inv(),
        ensures
            final(self).inv(),
            final(out)@ == old(out)@ + old(self).pending(),
            match r {
                Ok(n) => {
                    &&& n == old(self).pending().len()
                    &&& !old(self).fails()
                    &&& final(self).pending().len() == 0
                },
                Err(_) => old(self).fails(),
            },
    ;
}

impl<R: ByteRead> ReadExt for R {
    fn read_exact(&mut self, buf: &mut [u8]) -> (r: Result<(), IoError>) {
        read_exact(self, buf)
    }

    fn read_to_end(&mut self, out: &mut Vec<u8>) -> (r: Result<usize, IoError>) {
        read_to_end(self, out)
    }
}

/// Count of bytes read.
pub trait CountRead {
    /// The number of bytes read by the caller so far.
    spec fn count(&self) -> nat;

    /// Returns the number of bytes read from this stream.
    ///
    /// The value represents the number of bytes marked as consumed and not
    /// bytes stored in internal buffers.
    fn read_count(&self) -> (r: u64)
        ensures
            r == self.count(),
    ;
}

/// Count of bytes read from a source stream.
///
/// This trait is for reader objects that wrap another stream and transform
/// or buffer its data.
pub trait SourceCountRead {
    /// The number of bytes taken from the source stream so far.
    spec fn source_count(&self) -> nat;

    /// Returns the number of bytes read by this object from the source stream.
    fn source_read_count(&self) -> (r: u64)
        ensures
            r == self.source_count(),
    ;
}

/// Read data without consuming it.
pub trait PeekRead: ByteRead {
    /// The bytes held for peeking: a prefix of `pending`.
    spec fn peeked(&self) -> Seq<u8>;

    /// Returns data from the stream without advancing the stream position.
    ///
    /// At most one read call is made to fill the buffer. The result is the
    /// first `amount` held bytes, or all of them when fewer are held; fewer
    /// bytes are held than asked for only at the end of the data.
    fn peek(&mut self, amount: usize) -> (r: Result<Vec<u8>, IoError>)
        requires
            old(self).inv(),
        ensures
            final(self).inv(),
            final(self).pending() == old(self).pending(),
            final(self).fails() == old(self).fails(),
            final(self).peeked().len() >= old(self).peeked().len(),
            match r {
                Ok(b) => {
                    &&& b@.len() <= amount
                    &&& b@.len() <= old(self).pending().len()
                    &&& b@ == old(self).pending().take(b@.len() as int)
                    &&& (b@.len() < amount ==> b@.len() == final(self).peeked().len())
                    &&& (old(self).peeked().len() < amount && final(self).peeked().len()
                        == old(self).peeked().len()) ==> final(self).peeked().len()
                        == old(self).pending().len() && !old(self).fails()
                },
                Err(_) => {
                    &&& old(self).peeked().len() < amount
                    &&& old(self).peeked().len() == old(self).pending().len()
                    &&& old(self).fails()
                },
            },
    ;

    /// The held bytes are a prefix of the pending bytes.
    proof fn lemma_peeked(&self)
        requires
            self.inv(),
        ensures
            self.peeked().len() <= self.pending().len(),
            self.peeked() == self.pending().take(self.peeked().len() as int),
    ;

    /// Returns exactly `amount` bytes from the stream without advancing the
    /// stream position; an error at the end of the data.
    fn peek_exact(&mut self, amount: usize) -> (r: Result<Vec<u8>, IoError>)
        requires
            old(self).inv(),
        ensures
            final(self).inv(),
            final(self).pending() == old(self).pending(),
            final(self).fails() == old(self).fails(),
            amount <= old(self).pending().len() ==> r == Ok::<Vec<u8>, IoError>(r->Ok_0) && r->Ok_0@
                == old(self).pending().take(amount as int),
            amount > old(self).pending().len() ==> (r matches Err(e) && (!old(self).fails() ==> e@
                == IoErrorKind::UnexpectedEof)),
    {
        let mut prev: usize = 0;
        proof {
            self.lemma_peeked();
        }
        loop
            invariant
                self.inv(),
                self.pending() == old(self).pending(),
                self.fails() == old(self).fails(),
                prev <= self.peeked().len(),
                prev <= self.pending().len(),
                prev == 0 || prev < amount,
            decreases self.pending().len() - prev,
        {
            let ghost held = self.peeked().len();
            proof {
                self.lemma_peeked();
            }
            let buffer = self.peek(amount)?;
            proof {
                self.lemma_peeked();
            }
            if buffer.len() >= amount {
                return Ok(buffer);
            } else if prev == buffer.len() {
                return Err(IoError::new(IoErrorKind::UnexpectedEof));
            }
            prev = buffer.len();
        }
    }
}

/// Buffered reader with peeking and read counting.
///
/// When the source fails while the buffer is being topped up, `fill_buf`
/// returns the bytes already held; the error comes once they are used up.
pub struct ComboReader<R: ByteRead> {
    stream: R,
    buf: Vec<u8>,
    buf_len_threshold: usize,
    read_count: u64,
    source_read_count: u64,
}

impl<R: ByteRead> ComboReader<R> {
    /// The wrapped stream.
    pub closed spec fn spec_stream(&self) -> R {
        self.stream
    }

    /// The internal buffer.
    pub closed spec fn spec_buffer(&self) -> Seq<u8> {
        self.buf@
    }

    /// Creates a reader with the given stream.
    pub fn new(reader: R) -> (r: Self)
        requires
            reader.inv(),
        ensures
            r.inv(),
            r.pending() == reader.pending(),
            r.fails() == reader.fails(),
            r.spec_stream() == reader,
            r.spec_buffer().len() == 0,
            r.count() == 0,
            r.source_count() == 0,
    {
        proof {
            reader.lemma_pending_len();
        }
        let r = ComboReader {
            stream: reader,
            buf: Vec::new(),
            buf_len_threshold: 4096,
            read_count: 0,
            source_read_count: 0,
        };
        assert(r.pending() =~= reader.pending());
        r
    }

    /// Returns a reference to the wrapped stream.
    pub fn get_ref(&self) -> (r: &R)
        ensures
            *r == self.spec_stream(),
    {
        &self.stream
    }

    /// Returns a mutable reference to the wrapped stream.
    pub fn get_mut(&mut self) -> (r: &mut R)
        ensures
            *r == old(self).spec_stream(),
            final(self).spec_stream() == *final(r),
            final(self).spec_buffer() == old(self).spec_buffer(),
            final(self).count() == old(self).count(),
            final(self).source_count() == old(self).source_count(),
    {
        &mut self.stream
    }

    /// Returns the wrapped stream; buffered bytes are dropped.
    pub fn into_inner(self) -> (r: R)
        ensures
            r == self.spec_stream(),
    {
        self.stream
    }

    /// Returns a reference to the internal buffer.
    pub fn buffer(&self) -> (r: &[u8])
        ensures
            r@ == self.spec_buffer(),
    {
        self.buf.as_slice()
    }

    fn fill_buf_impl(&mut self, amount: usize) -> (r: Result<(), IoError>)
        requires
            old(self).inv(),
        ensures
            final(self).inv(),
            final(self).pending() == old(self).pending(),
            final(self).fails() == old(self).fails(),
            final(self).count() == old(self).count(),
            final(self).buf@.len() >= old(self).buf@.len(),
            old(self).buf@.len() < amount && final(self).buf@.len() == old(self).buf@.len() ==> (
            r is Err || old(self).stream.pending().len() == 0 && !old(self).fails()),
            old(self).buf@.len() < amount && old(self).stream.pending().len() > 0 ==> (r is Ok
                && final(self).buf@.len() > old(self).buf@.len()),
            r is Err ==> {
                &&& old(self).buf@.len() < amount
                &&& old(self).stream.pending().len() == 0
                &&& old(self).fails()
                &&& final(self).buf@ == old(self).buf@
            },
            old(self).buf@.len() >= amount ==> final(self).buf@ == old(self).buf@,
            old(self).buf@.len() < amount && old(self).stream.reads_fully() && r is Ok
                ==> final(self).buf@ == old(self).pending().take(
                (old(self).buf@.len() + min_len(4096, old(self).stream.pending().len())) as int,
            ),
    {
        if self.buf.len() < amount {
            let mut tmp: Vec<u8> = Vec::new();
            tmp.resize(self.buf_len_threshold, 0u8);
            let ghost sp = self.stream.pending();
            let ghost b0 = self.buf@;
            let ghost full = self.stream.reads_fully();
            let n = self.stream.read(tmp.as_mut_slice())?;
            assert(full ==> n == min_len(4096, sp.len()));
            assert(n <= sp.len());
            assert(tmp@.take(n as int) == sp.take(n as int));
            assert(self.stream.pending() == sp.skip(n as int));
            let ghost st1 = self.stream;
            let mut i: usize = 0;
            while i < n
                invariant
                    i <= n <= tmp@.len(),
                    self.buf@ == b0 + tmp@.take(i as int),
                    self.stream == st1,
                    self.source_read_count == old(self).source_read_count,
                    self.read_count == old(self).read_count,
                    self.buf_len_threshold == old(self).buf_len_threshold,
                decreases n - i,
            {
                self.buf.push(tmp[i]);
                i = i + 1;
                assert(self.buf@ =~= b0 + tmp@.take(i as int));
            }
            assert(self.source_read_count + sp.len() <= u64::MAX);
            self.source_read_count = self.source_read_count + n as u64;
            proof {
                assert(sp =~= sp.take(n as int) + sp.skip(n as int));
                assert(self.pending() =~= old(self).pending());
                assert(old(self).pending().take((b0.len() + n) as int) =~= self.buf@);
            }
        }
        Ok(())
    }

    fn shift_buf(&mut self, amount: usize)
        requires
            amount <= old(self).buf@.len(),
        ensures
            final(self).buf@ == old(self).buf@.skip(amount as int),
            final(self).stream == old(self).stream,
            final(self).buf_len_threshold == old(self).buf_len_threshold,
            final(self).read_count == old(self).read_count,
            final(self).source_read_count == old(self).source_read_count,
    {
        let rest = self.buf.split_off(amount);
        self.buf = rest;
        assert(self.buf@ =~= old(self).buf@.skip(amount as int));
    }
}

impl<R: ByteRead> ByteRead for ComboReader<R> {
    closed spec fn inv(&self) -> bool {
        &&& self.stream.inv()
        &&& self.buf_len_threshold == 4096
        &&& self.source_read_count == self.read_count + self.buf@.len()
        &&& self.source_read_count + self.stream.pending().len() <= u64::MAX
    }

    closed spec fn pending(&self) -> Seq<u8> {
        self.buf@ + self.stream.pending()
    }

    closed spec fn fails(&self) -> bool {
        self.stream.fails()
    }

    closed spec fn reads_fully(&self) -> bool {
        false
    }

    proof fn lemma_pending_len(&self) {
    }

    fn read(&mut self, out: &mut [u8]) -> (r: Result<usize, IoError>)
        ensures
            r matches Ok(n) ==> final(self).count() == old(self).count() + n,
            old(self).spec_buffer().len() > 0 ==> {
                &&& r matches Ok(n)
                &&& n == min_len(old(self).spec_buffer().len(), old(out)@.len())
                &&& final(self).spec_buffer() == old(self).spec_buffer().skip(n as int)
                &&& final(self).source_count() == old(self).source_count()
            },
            old(self).spec_buffer().len() == 0 && old(out)@.len() >= 4096 ==> {
                &&& final(self).spec_buffer().len() == 0
                &&& r matches Ok(n) ==> final(self).source_count() == old(self).source_count() + n
                &&& old(self).spec_stream().reads_fully() ==> (r matches Ok(n) ==> n == min_len(
                    old(out)@.len(),
                    old(self).pending().len(),
                ))
            },
            old(self).spec_buffer().len() == 0 && old(out)@.len() < 4096 && old(
                self,
            ).spec_stream().reads_fully() ==> (r matches Ok(n) ==> {
                let k = min_len(4096, old(self).pending().len());
                &&& n == min_len(old(out)@.len(), k)
                &&& final(self).spec_buffer() == old(self).pending().subrange(n as int, k as int)
                &&& final(self).source_count() == old(self).source_count() + k
            }),
    {
        if self.buf.len() > 0 {
            let amount = if self.buf.len() < out.len() {
                self.buf.len()
            } else {
                out.len()
            };
            copy_into(out, 0, self.buf.as_slice(), 0, amount);
            self.shift_buf(amount);
            self.read_count = self.read_count + amount as u64;
            proof {
                assert(out@.take(amount as int) =~= old(self).pending().take(amount as int));
                assert(out@.skip(amount as int) =~= old(out)@.skip(amount as int));
                assert(self.pending() =~= old(self).pending().skip(amount as int));
            }
            Ok(amount)
        } else if out.len() >= self.buf_len_threshold {
            let amount = self.stream.read(out)?;
            self.source_read_count = self.source_read_count + amount as u64;
            self.read_count = self.read_count + amount as u64;
            proof {
                assert(old(self).pending() =~= old(self).stream.pending());
                assert(self.pending() =~= self.stream.pending());
            }
            Ok(amount)
        } else {
            let ghost b0 = self.buf@;
            self.fill_buf_impl(self.buf_len_threshold)?;
            let amount = if out.len() < self.buf.len() {
                out.len()
            } else {
                self.buf.len()
            };
            copy_into(out, 0, self.buf.as_slice(), 0, amount);
            self.shift_buf(amount);
            self.read_count = self.read_count + amount as u64;
            proof {
                assert(self.buf@.len() + 0 >= 0);
                assert(out@.take(amount as int) =~= old(self).pending().take(amount as int));
                assert(out@.skip(amount as int) =~= old(out)@.skip(amount as int));
            }
            Ok(amount)
        }
    }
}

impl<R: ByteRead> ByteBufRead for ComboReader<R> {
    closed spec fn buffered(&self) -> Seq<u8> {
        self.buf@
    }

    fn fill_buf(&mut self) -> (r: Result<Vec<u8>, IoError>)
        ensures
            final(self).count() == old(self).count(),
            old(self).spec_buffer().len() >= 4096 ==> final(self).spec_buffer() == old(
                self,
            ).spec_buffer() && final(self).source_count() == old(self).source_count(),
            old(self).spec_buffer().len() < 4096 && old(self).spec_stream().reads_fully() ==> {
                let k = min_len(4096, old(self).spec_stream().pending().len());
                &&& final(self).spec_buffer() == old(self).pending().take(
                    (old(self).spec_buffer().len() + k) as int,
                )
                &&& final(self).source_count() == old(self).source_count() + k
            },
    {
        match self.fill_buf_impl(self.buf_len_threshold) {
            Ok(()) => {},
            Err(e) => {
                if self.buf.len() == 0 {
                    assert(old(self).pending() =~= old(self).stream.pending());
                    return Err(e);
                }
            },
        }
        let mut out: Vec<u8> = Vec::new();
        out.extend_from_slice(self.buf.as_slice());
        assert(out@ =~= self.buf@);
        assert(out@ =~= old(self).pending().take(out@.len() as int));
        Ok(out)
    }

    proof fn lemma_buffered(&self) {
        assert(self.buf@ =~= self.pending().take(self.buf@.len() as int));
    }

    fn consume(&mut self, amount: usize)
        ensures
            final(self).spec_buffer() == old(self).spec_buffer().skip(amount as int),
            final(self).count() == old(self).count() + amount,
            final(self).source_count() == old(self).source_count(),
    {
        let amount = if self.buf.len() < amount {
            self.buf.len()
        } else {
            amount
        };
        self.shift_buf(amount);
        self.read_count = self.read_count + amount as u64;
        assert(self.pending() =~= old(self).pending().skip(amount as int));
    }
}

impl<R: ByteRead> PeekRead for ComboReader<R> {
    closed spec fn peeked(&self) -> Seq<u8> {
        self.buf@
    }

    fn peek(&mut self, amount: usize) -> (r: Result<Vec<u8>, IoError>)
        ensures
            final(self).count() == old(self).count(),
            old(self).spec_buffer().len() >= amount ==> {
                &&& r matches Ok(b) && b@ == old(self).spec_buffer().take(amount as int)
                &&& final(self).spec_buffer() == old(self).spec_buffer()
                &&& final(self).source_count() == old(self).source_count()
            },
            old(self).spec_buffer().len() < amount && old(self).spec_stream().reads_fully() ==> {
                let k = min_len(4096, old(self).spec_stream().pending().len());
                let held = (old(self).spec_buffer().len() + k) as nat;
                &&& !old(self).fails() ==> r is Ok
                &&& r matches Ok(b) ==> {
                    &&& b@ == old(self).pending().take(min_len(amount as nat, held) as int)
                    &&& final(self).spec_buffer() == old(self).pending().take(held as int)
                    &&& final(self).source_count() == old(self).source_count() + k
                }
            },
    {
        self.fill_buf_impl(amount)?;
        let n = if amount < self.buf.len() {
            amount
        } else {
            self.buf.len()
        };
        let mut out: Vec<u8> = Vec::new();
        out.extend_from_slice(&self.buf.as_slice()[0..n]);
        assert(out@ =~= self.buf@.take(n as int));
        assert(out@ =~= old(self).pending().take(n as int));
        Ok(out)
    }

    proof fn lemma_peeked(&self) {
        assert(self.peeked() == self.buf@);
        assert(self.pending() == self.buf@ + self.stream.pending());
        assert(self.pending().len() == self.buf@.len() + self.stream.pending().len());
        assert(self.buf@ =~= self.pending().take(self.buf@.len() as int));
    }
}

impl<R: ByteRead> CountRead for ComboReader<R> {
    closed spec fn count(&self) -> nat {
        self.read_count as nat
    }

    fn read_count(&self) -> (r: u64) {
        self.read_count
    }
}

impl<R: ByteRead> SourceCountRead for ComboReader<R> {
    closed spec fn source_count(&self) -> nat {
        self.source_read_count as nat
    }

    fn source_read_count(&self) -> (r: u64) {
        self.source_read_count
    }
}

/// Every byte taken from the source has been either read by the caller or
/// is still held in the buffer.
pub proof fn law_combo_counts_balance<R: ByteRead>(reader: &ComboReader<R>)
    requires
        reader.inv(),
    ensures
        reader.source_count() == reader.count() + reader.spec_buffer().len(),
{
}

/// A sink of bytes, written in order.
pub trait ByteWrite: Sized {
    /// The bytes written so far.
    spec fn written(&self) -> Seq<u8>;

    /// Whether writes fail.
    spec fn write_fails(&self) -> bool;

    /// Writes all of `buf`.
    fn write_all(&mut self, buf: &[u8]) -> (r: Result<(), IoError>)
        ensures
            final(self).write_fails() == old(self).write_fails(),
            !old(self).write_fails() ==> r is Ok && final(self).written() == old(self).written()
                + buf@,
            old(self).write_fails() ==> r is Err,
    ;

    /// Flushes buffered bytes to their destination.
    fn flush(&mut self) -> (r: Result<(), IoError>)
        ensures
            final(self).write_fails() == old(self).write_fails(),
            !old(self).write_fails() ==> r is Ok && final(self).written() == old(self).written(),
            old(self).write_fails() ==> r is Err,
    ;
}

impl ByteWrite for Vec<u8> {
    open spec fn written(&self) -> Seq<u8> {
        self@
    }

    open spec fn write_fails(&self) -> bool {
        false
    }

    fn write_all(&mut self, buf: &[u8]) -> (r: Result<(), IoError>) {
        self.extend_from_slice(buf);
        Ok(())
    }

    fn flush(&mut self) -> (r: Result<(), IoError>) {
        Ok(())
    }
}

} // verus!
