//! Stream helpers: peeking ahead and counting the bytes read.
use vstd::prelude::*;

pub use crate::io::CountRead;
use crate::io::{copy_into, min_len, ByteBufRead, ByteRead, IoError, IoErrorKind};

verus! {

/// Reader that can read ahead without consuming.
pub struct PeekReader<R: ByteRead> {
    inner: R,
    buf: Vec<u8>,
}

impl<R: ByteRead> PeekReader<R> {
    /// The wrapped stream.
    pub closed spec fn spec_inner(&self) -> R {
        self.inner
    }

    /// The bytes read ahead and not yet consumed.
    pub closed spec fn spec_buffer(&self) -> Seq<u8> {
        self.buf@
    }

    /// Creates a reader over `reader`.
    pub fn new(reader: R) -> (r: Self)
        requires
            reader.inv(),
        ensures
            r.inv(),
            r.spec_inner() == reader,
            r.spec_buffer().len() == 0,
            r.pending() == reader.pending(),
            r.fails() == reader.fails(),
    {
        proof {
            reader.lemma_pending_len();
        }
        let r = PeekReader { inner: reader, buf: Vec::new() };
        assert(r.pending() =~= reader.pending());
        r
    }

    /// Returns a reference to the wrapped stream.
    pub fn get_ref(&self) -> (r: &R)
        ensures
            *r == self.spec_inner(),
    {
        &self.inner
    }

    /// Returns a mutable reference to the wrapped stream.
    pub fn get_mut(&mut self) -> (r: &mut R)
        ensures
            *r == old(self).spec_inner(),
            final(self).spec_inner() == *final(r),
            final(self).spec_buffer() == old(self).spec_buffer(),
    {
        &mut self.inner
    }

    /// Returns the wrapped stream; bytes read ahead are dropped.
    pub fn into_inner(self) -> (r: R)
        ensures
            r == self.spec_inner(),
    {
        self.inner
    }

    /// Returns the bytes read ahead and not yet consumed.
    pub fn buffer(&self) -> (r: &[u8])
        ensures
            r@ == self.spec_buffer(),
    {
        self.buf.as_slice()
    }

    /// Read exactly `amount` more bytes without consuming them.
    ///
    /// The bytes are read from the wrapped stream, appended to the internal
    /// buffer and returned. Reads return bytes from the internal buffer
    /// first, then from the wrapped stream. An error when the data ends
    /// first; the bytes read before the end are then kept in the buffer, so
    /// nothing is lost to later reads.
    pub fn peek(&mut self, amount: usize) -> (r: Result<Vec<u8>, IoError>)
        requires
            old(self).inv(),
        ensures
            final(self).inv(),
            final(self).pending() == old(self).pending(),
            final(self).fails() == old(self).fails(),
            amount <= old(self).spec_inner().pending().len() ==> {
                &&& r matches Ok(b) && b@ == old(self).spec_inner().pending().take(amount as int)
                &&& final(self).spec_buffer() == old(self).spec_buffer() + old(
                    self,
                ).spec_inner().pending().take(amount as int)
            },
            amount > old(self).spec_inner().pending().len() ==> {
                &&& r matches Err(e) && (!old(self).fails() ==> e@ == IoErrorKind::UnexpectedEof)
                &&& final(self).spec_buffer() == old(self).pending()
            },
    {
        let ghost ip = self.inner.pending();
        let ghost b0 = self.buf@;
        let mut got: usize = 0;
        let mut out: Vec<u8> = Vec::new();
        while got < amount
            invariant
                self.inner.inv(),
                got <= amount,
                got <= ip.len(),
                out@ == ip.take(got as int),
                self.buf@ == b0 + out@,
                self.inner.pending() == ip.skip(got as int),
                self.inner.fails() == old(self).inner.fails(),
                b0.len() + ip.len() <= u64::MAX,
                ip == old(self).inner.pending(),
                b0 == old(self).buf@,
            decreases amount - got,
        {
            let mut tmp: Vec<u8> = Vec::new();
            tmp.resize(amount - got, 0u8);
            let n = match self.inner.read(tmp.as_mut_slice()) {
                Ok(n) => n,
                Err(e) => {
                    assert(out@ =~= ip);
                    return Err(e);
                },
            };
            if n == 0 {
                assert(out@ =~= ip);
                return Err(IoError::new(IoErrorKind::UnexpectedEof));
            }
            let ghost o1 = out@;
            let ghost i1 = self.inner;
            let mut j: usize = 0;
            while j < n
                invariant
                    j <= n <= tmp@.len(),
                    out@ == o1 + tmp@.take(j as int),
                    self.buf@ == b0 + out@,
                    self.inner == i1,
                decreases n - j,
            {
                out.push(tmp[j]);
                self.buf.push(tmp[j]);
                j = j + 1;
                assert(out@ =~= o1 + tmp@.take(j as int));
            }
            proof {
                assert(out@ =~= ip.take(got + n));
                assert(ip.skip(got as int).skip(n as int) =~= ip.skip(got + n));
            }
            got = got + n;
        }
        proof {
            assert(ip =~= ip.take(got as int) + ip.skip(got as int));
            assert(self.pending() =~= old(self).pending());
        }
        Ok(out)
    }
}

impl<R: ByteRead> PeekReader<R> {
    /// Reads exactly enough bytes to fill `buf`, from the bytes read ahead
    /// first.
    ///
    /// Returns `UnexpectedEof` when the data ends first (or the wrapped
    /// stream's own error when it fails there).
    pub fn read_exact(&mut self, buf: &mut [u8]) -> (r: Result<(), IoError>)
        requires
            old(self).inv(),
        ensures
            final(self).inv(),
            final(buf)@.len() == old(buf)@.len(),
            old(buf)@.len() <= old(self).pending().len() ==> {
                &&& r is Ok
                &&& final(buf)@ == old(self).pending().take(old(buf)@.len() as int)
                &&& final(self).pending() == old(self).pending().skip(old(buf)@.len() as int)
                &&& final(self).fails() == old(self).fails()
            },
            old(buf)@.len() > old(self).pending().len() ==> (r matches Err(e) && (
                !old(self).fails() ==> e@ == IoErrorKind::UnexpectedEof)),
            old(buf)@.len() <= old(self).spec_buffer().len() ==> final(self).spec_buffer() == old(
                self,
            ).spec_buffer().skip(old(buf)@.len() as int),
            old(buf)@.len() >= old(self).spec_buffer().len() ==> final(self).spec_buffer().len()
                == 0,
    {
        let len = buf.len();
        let ghost p0 = self.pending();
        let ghost b0 = self.buf@;
        let mut filled: usize = 0;
        while filled < len
            invariant
                self.inv(),
                buf@.len() == len,
                len == old(buf)@.len(),
                filled <= len,
                filled <= p0.len(),
                buf@.take(filled as int) == p0.take(filled as int),
                self.pending() == p0.skip(filled as int),
                self.fails() == old(self).fails(),
                p0 == old(self).pending(),
                b0 == old(self).buf@,
                filled <= b0.len() ==> self.buf@ == b0.skip(filled as int),
                filled >= b0.len() ==> self.buf@.len() == 0,
            decreases len - filled,
        {
            let mut tmp: Vec<u8> = Vec::new();
            tmp.resize(len - filled, 0u8);
            match self.read(tmp.as_mut_slice()) {
                Ok(n) => {
                    if n == 0 {
                        return Err(IoError::new(IoErrorKind::UnexpectedEof));
                    }
                    copy_into(buf, filled, tmp.as_slice(), 0, n);
                    proof {
                        assert(buf@.take(filled + n) =~= p0.take(filled + n));
                        assert(p0.skip(filled as int).skip(n as int) =~= p0.skip(filled + n));
                        if filled < b0.len() {
                            assert(b0.skip(filled as int).skip(n as int) =~= b0.skip(filled + n));
                        }
                    }
                    filled = filled + n;
                },
                Err(e) => {
                    return Err(e);
                },
            }
        }
        assert(buf@ =~= buf@.take(filled as int));
        Ok(())
    }
}

impl<R: ByteRead> ByteRead for PeekReader<R> {
    closed spec fn inv(&self) -> bool {
        self.inner.inv() && self.buf@.len() + self.inner.pending().len() <= u64::MAX
    }

    closed spec fn pending(&self) -> Seq<u8> {
        self.buf@ + self.inner.pending()
    }

    closed spec fn fails(&self) -> bool {
        self.inner.fails()
    }

    open spec fn reads_fully(&self) -> bool {
        self.spec_buffer().len() == 0 && self.spec_inner().reads_fully()
    }

    proof fn lemma_pending_len(&self) {
    }

    fn read(&mut self, out: &mut [u8]) -> (r: Result<usize, IoError>)
        ensures
            old(self).spec_buffer().len() > 0 ==> {
                &&& r matches Ok(n)
                &&& n == min_len(old(self).spec_buffer().len(), old(out)@.len())
                &&& final(self).spec_buffer() == old(self).spec_buffer().skip(n as int)
                &&& final(self).spec_inner() == old(self).spec_inner()
            },
            old(self).spec_buffer().len() == 0 ==> final(self).spec_buffer().len() == 0,
    {
        if self.buf.len() == 0 {
            assert(self.pending() =~= self.inner.pending());
            let n = self.inner.read(out)?;
            assert(self.pending() =~= self.inner.pending());
            Ok(n)
        } else {
            let len = if out.len() < self.buf.len() {
                out.len()
            } else {
                self.buf.len()
            };
            copy_into(out, 0, self.buf.as_slice(), 0, len);
            let rest = self.buf.split_off(len);
            self.buf = rest;
            proof {
                assert(out@.take(len as int) =~= old(self).pending().take(len as int));
                assert(out@.skip(len as int) =~= old(out)@.skip(len as int));
                assert(self.pending() =~= old(self).pending().skip(len as int));
            }
            Ok(len)
        }
    }
}

/// Reader that counts the bytes read through it.
pub struct CountReader<R: ByteRead> {
    inner: R,
    count: u64,
}

impl<R: ByteRead> CountReader<R> {
    /// The wrapped stream.
    pub closed spec fn spec_inner(&self) -> R {
        self.inner
    }

    /// Creates a counting reader over `inner`.
    pub fn new(inner: R) -> (r: Self)
        requires
            inner.inv(),
        ensures
            r.inv(),
            r.spec_inner() == inner,
            r.count() == 0,
            r.pending() == inner.pending(),
            r.fails() == inner.fails(),
    {
        proof {
            inner.lemma_pending_len();
        }
        CountReader { inner, count: 0 }
    }

    /// Returns a reference to the wrapped stream.
    pub fn get_ref(&self) -> (r: &R)
        ensures
            *r == self.spec_inner(),
    {
        &self.inner
    }

    /// Returns a mutable reference to the wrapped stream.
    pub fn get_mut(&mut self) -> (r: &mut R)
        ensures
            *r == old(self).spec_inner(),
            final(self).spec_inner() == *final(r),
            final(self).count() == old(self).count(),
    {
        &mut self.inner
    }

    /// Returns the wrapped stream.
    pub fn into_inner(self) -> (r: R)
        ensures
            r == self.spec_inner(),
    {
        self.inner
    }
}

impl<R: ByteRead> CountRead for CountReader<R> {
    closed spec fn count(&self) -> nat {
        self.count as nat
    }

    fn read_count(&self) -> (r: u64) {
        self.count
    }
}

impl<R: ByteRead> ByteRead for CountReader<R> {
    closed spec fn inv(&self) -> bool {
        self.inner.inv() && self.count + self.inner.pending().len() <= u64::MAX
    }

    closed spec fn pending(&self) -> Seq<u8> {
        self.inner.pending()
    }

    closed spec fn fails(&self) -> bool {
        self.inner.fails()
    }

    open spec fn reads_fully(&self) -> bool {
        self.spec_inner().reads_fully()
    }

    proof fn lemma_pending_len(&self) {
    }

    fn read(&mut self, buf: &mut [u8]) -> (r: Result<usize, IoError>)
        ensures
            r matches Ok(n) ==> final(self).count() == old(self).count() + n,
    {
        let size = self.inner.read(buf)?;
        self.count = self.count + size as u64;
        Ok(size)
    }
}

/// Buffered reader that counts the bytes read through it.
pub struct CountBufReader<R: ByteBufRead> {
    inner: R,
    count: u64,
}

impl<R: ByteBufRead> CountBufReader<R> {
    /// The wrapped stream.
    pub closed spec fn spec_inner(&self) -> R {
        self.inner
    }

    /// Creates a counting reader over `inner`.
    pub fn new(inner: R) -> (r: Self)
        requires
            inner.inv(),
        ensures
            r.inv(),
            r.spec_inner() == inner,
            r.count() == 0,
            r.pending() == inner.pending(),
            r.fails() == inner.fails(),
    {
        proof {
            inner.lemma_pending_len();
        }
        CountBufReader { inner, count: 0 }
    }

    /// Returns a reference to the wrapped stream.
    pub fn get_ref(&self) -> (r: &R)
        ensures
            *r == self.spec_inner(),
    {
        &self.inner
    }

    /// Returns a mutable reference to the wrapped stream.
    pub fn get_mut(&mut self) -> (r: &mut R)
        ensures
            *r == old(self).spec_inner(),
            final(self).spec_inner() == *final(r),
            final(self).count() == old(self).count(),
    {
        &mut self.inner
    }

    /// Returns the wrapped stream.
    pub fn into_inner(self) -> (r: R)
        ensures
            r == self.spec_inner(),
    {
        self.inner
    }
}

impl<R: ByteBufRead> CountRead for CountBufReader<R> {
    closed spec fn count(&self) -> nat {
        self.count as nat
    }

    fn read_count(&self) -> (r: u64) {
        self.count
    }
}

impl<R: ByteBufRead> ByteRead for CountBufReader<R> {
    closed spec fn inv(&self) -> bool {
        self.inner.inv() && self.count + self.inner.pending().len() <= u64::MAX
    }

    closed spec fn pending(&self) -> Seq<u8> {
        self.inner.pending()
    }

    closed spec fn fails(&self) -> bool {
        self.inner.fails()
    }

    open spec fn reads_fully(&self) -> bool {
        self.spec_inner().reads_fully()
    }

    proof fn lemma_pending_len(&self) {
    }

    fn read(&mut self, buf: &mut [u8]) -> (r: Result<usize, IoError>)
        ensures
            r matches Ok(n) ==> final(self).count() == old(self).count() + n,
    {
        let size = self.inner.read(buf)?;
        self.count = self.count + size as u64;
        Ok(size)
    }
}

impl<R: ByteBufRead> ByteBufRead for CountBufReader<R> {
    closed spec fn buffered(&self) -> Seq<u8> {
        self.inner.buffered()
    }

    fn fill_buf(&mut self) -> (r: Result<Vec<u8>, IoError>) {
        self.inner.fill_buf()
    }

    proof fn lemma_buffered(&self) {
        self.inner.lemma_buffered();
    }

    fn consume(&mut self, amount: usize)
        ensures
            final(self).count() == old(self).count() + amount,
    {
        proof {
            self.inner.lemma_buffered();
        }
        self.count = self.count + amount as u64;
        self.inner.consume(amount)
    }
}

} // verus!
