//! A cursor over a borrowed buffer, from which packets are read and into which
//! they are written.
use vstd::prelude::*;

use crate::error::Error;
use crate::wire::{be_at, be_bytes, be_value, overwrite, pow256};
use crate::wire::{lemma_be_bytes_len, lemma_be_value_first, lemma_pow256_values};
use crate::wire::{varint_at, varint_bytes, varint_len, varint_size, VARINT_LIMIT};

verus! {

/// A buffer with a position in it.
///
/// The cursor holds the buffer for as long as it lives: what is written through
/// it is in the buffer when the cursor is gone.
pub struct Octets<'a> {
    pub buf: &'a mut [u8],
    pub off: usize,
}

/// The number in the `n` bytes of `buf` that start at `from`.
fn read_be(buf: &[u8], from: usize, n: usize) -> (v: u64)
    requires
        from + n <= buf.len(),
        n <= 8,
    ensures
        v == be_at(buf@, from as int, n as nat),
        v < pow256(n as nat),
{
    let mut v: u64 = 0;
    let mut i: usize = 0;
    while i < n
        invariant
            i <= n <= 8,
            from + n <= buf.len(),
            v == be_value(buf@.subrange(from as int, from + i)),
            v < pow256(i as nat),
        decreases n - i,
    {
        proof {
            lemma_pow256_values();
            assert(pow256((i + 1) as nat) == 256 * pow256(i as nat));
            assert(buf@.subrange(from as int, from + i + 1).drop_last() =~= buf@.subrange(
                from as int,
                from + i,
            ));
            assert(pow256(i as nat) <= pow256(7));
        }
        v = v * 256 + buf[from + i] as u64;
        i += 1;
    }
    v
}

impl<'a> Octets<'a> {
    /// The whole buffer.
    pub open spec fn data(&self) -> Seq<u8> {
        self.buf@
    }

    /// The position lies in the buffer.
    pub open spec fn wf(&self) -> bool {
        self.off <= self.buf.len()
    }

    /// How many bytes there are from the position on.
    pub open spec fn left(&self) -> int {
        self.buf.len() - self.off
    }

    /// A cursor at the start of `buf`.
    pub fn with_slice(buf: &'a mut [u8]) -> (res: Octets<'a>)
        ensures
            res.wf(),
            res.data() == old(buf)@,
            res.off == 0,
            final(res.buf)@ == final(buf)@,
    {
        Octets { buf, off: 0 }
    }

    /// The position.
    pub fn off(&self) -> (res: usize)
        ensures
            res == self.off,
    {
        self.off
    }

    /// The length of the buffer.
    pub fn len(&self) -> (res: usize)
        ensures
            res == self.data().len(),
    {
        self.buf.len()
    }

    /// The number of bytes from the position on.
    pub fn cap(&self) -> (res: usize)
        requires
            self.wf(),
        ensures
            res == self.left(),
    {
        self.buf.len() - self.off
    }

    /// The bytes from the position on.
    pub fn as_ref(&self) -> (res: &[u8])
        requires
            self.wf(),
        ensures
            res@ == self.data().skip(self.off as int),
    {
        vstd::slice::slice_subrange(self.buf, self.off, self.buf.len())
    }

    /// A copy of the bytes from the position on.
    pub fn to_vec(&self) -> (res: Vec<u8>)
        requires
            self.wf(),
        ensures
            res@ == self.data().skip(self.off as int),
    {
        vstd::slice::slice_to_vec(self.as_ref())
    }

    /// Reads a number of `n` bytes.
    fn get_be(&mut self, n: usize) -> (res: Result<u64, Error>)
        requires
            old(self).wf(),
            n <= 8,
        ensures
            final(self).wf(),
            final(self).data() == old(self).data(),
            final(final(self).buf)@ == final(old(self).buf)@,
            match res {
                Ok(v) => {
                    &&& n <= old(self).left()
                    &&& final(self).off == old(self).off + n
                    &&& v == be_at(old(self).data(), old(self).off as int, n as nat)
                    &&& v < pow256(n as nat)
                },
                Err(e) => {
                    &&& e == Error::BufferTooShort
                    &&& n > old(self).left()
                    &&& final(self).off == old(self).off
                },
            },
    {
        if self.cap() < n {
            return Err(Error::BufferTooShort);
        }
        let v: u64 = read_be(self.buf, self.off, n);
        self.off = self.off + n;
        Ok(v)
    }

    /// Writes the low `n` bytes of `v`.
    fn put_be(&mut self, v: u64, n: usize) -> (res: Result<(), Error>)
        requires
            old(self).wf(),
        ensures
            final(self).wf(),
            final(final(self).buf)@ == final(old(self).buf)@,
            match res {
                Ok(_) => {
                    &&& n <= old(self).left()
                    &&& final(self).off == old(self).off + n
                    &&& final(self).data() == overwrite(
                        old(self).data(),
                        old(self).off as int,
                        be_bytes(v as nat, n as nat),
                    )
                },
                Err(e) => {
                    &&& e == Error::BufferTooShort
                    &&& n > old(self).left()
                    &&& final(self).off == old(self).off
                    &&& final(self).data() == old(self).data()
                },
            },
    {
        if self.cap() < n {
            return Err(Error::BufferTooShort);
        }
        let ghost before = self.data();
        let ghost bytes = be_bytes(v as nat, n as nat);
        let mut rest: u64 = v;
        let mut i: usize = n;
        proof {
            lemma_be_bytes_len(v as nat, n as nat);
        }
        while i > 0
            invariant
                i <= n,
                self.off == old(self).off,
                self.off + n <= self.buf.len(),
                self.data().len() == before.len(),
                bytes.len() == n,
                bytes =~= be_bytes(rest as nat, i as nat) + bytes.skip(i as int),
                forall|j: int|
                    0 <= j < before.len() && !(self.off + i <= j < self.off + n) ==> self.data()[j]
                        == before[j],
                forall|j: int| i <= j < n ==> self.data()[self.off + j] == #[trigger] bytes[j],
                final(self.buf)@ == final(old(self).buf)@,
            decreases i,
        {
            let ghost prev = self.data();
            let ghost head = be_bytes(rest as nat, i as nat);
            proof {
                lemma_be_bytes_len(rest as nat, i as nat);
                assert(bytes[i - 1] == head[i - 1]);
            }
            i -= 1;
            self.buf[self.off + i] = (rest % 256) as u8;
            rest = rest / 256;
            proof {
                lemma_be_bytes_len(rest as nat, i as nat);
                assert(bytes =~= be_bytes(rest as nat, i as nat) + bytes.skip(i as int));
            }
        }
        self.off = self.off + n;
        assert(self.data() =~= overwrite(before, old(self).off as int, bytes));
        Ok(())
    }

    /// Reads one byte.
    pub fn get_u8(&mut self) -> (res: Result<u8, Error>)
        requires
            old(self).wf(),
        ensures
            final(self).wf(),
            final(self).data() == old(self).data(),
            final(final(self).buf)@ == final(old(self).buf)@,
            match res {
                Ok(v) => {
                    &&& 1 <= old(self).left()
                    &&& final(self).off == old(self).off + 1
                    &&& v == old(self).data()[old(self).off as int]
                },
                Err(e) => {
                    &&& e == Error::BufferTooShort
                    &&& 1 > old(self).left()
                    &&& final(self).off == old(self).off
                },
            },
    {
        if self.cap() < 1 {
            return Err(Error::BufferTooShort);
        }
        let v: u8 = self.buf[self.off];
        self.off = self.off + 1;
        Ok(v)
    }

    /// Reads a number of two bytes.
    pub fn get_u16(&mut self) -> (res: Result<u16, Error>)
        requires
            old(self).wf(),
        ensures
            final(self).wf(),
            final(self).data() == old(self).data(),
            final(final(self).buf)@ == final(old(self).buf)@,
            match res {
                Ok(v) => {
                    &&& 2 <= old(self).left()
                    &&& final(self).off == old(self).off + 2
                    &&& v == be_at(old(self).data(), old(self).off as int, 2)
                },
                Err(e) => {
                    &&& e == Error::BufferTooShort
                    &&& 2 > old(self).left()
                    &&& final(self).off == old(self).off
                },
            },
    {
        proof {
            lemma_pow256_values();
        }
        match self.get_be(2) {
            Ok(v) => Ok(v as u16),
            Err(e) => Err(e),
        }
    }

    /// Reads a number of three bytes.
    pub fn get_u24(&mut self) -> (res: Result<u32, Error>)
        requires
            old(self).wf(),
        ensures
            final(self).wf(),
            final(self).data() == old(self).data(),
            final(final(self).buf)@ == final(old(self).buf)@,
            match res {
                Ok(v) => {
                    &&& 3 <= old(self).left()
                    &&& final(self).off == old(self).off + 3
                    &&& v == be_at(old(self).data(), old(self).off as int, 3)
                },
                Err(e) => {
                    &&& e == Error::BufferTooShort
                    &&& 3 > old(self).left()
                    &&& final(self).off == old(self).off
                },
            },
    {
        proof {
            lemma_pow256_values();
        }
        match self.get_be(3) {
            Ok(v) => Ok(v as u32),
            Err(e) => Err(e),
        }
    }

    /// Reads a number of four bytes.
    pub fn get_u32(&mut self) -> (res: Result<u32, Error>)
        requires
            old(self).wf(),
        ensures
            final(self).wf(),
            final(self).data() == old(self).data(),
            final(final(self).buf)@ == final(old(self).buf)@,
            match res {
                Ok(v) => {
                    &&& 4 <= old(self).left()
                    &&& final(self).off == old(self).off + 4
                    &&& v == be_at(old(self).data(), old(self).off as int, 4)
                },
                Err(e) => {
                    &&& e == Error::BufferTooShort
                    &&& 4 > old(self).left()
                    &&& final(self).off == old(self).off
                },
            },
    {
        proof {
            lemma_pow256_values();
        }
        match self.get_be(4) {
            Ok(v) => Ok(v as u32),
            Err(e) => Err(e),
        }
    }

    /// Writes one byte.
    pub fn put_u8(&mut self, v: u8) -> (res: Result<(), Error>)
        requires
            old(self).wf(),
        ensures
            final(self).wf(),
            final(final(self).buf)@ == final(old(self).buf)@,
            match res {
                Ok(_) => {
                    &&& 1 <= old(self).left()
                    &&& final(self).off == old(self).off + 1
                    &&& final(self).data() == overwrite(
                        old(self).data(),
                        old(self).off as int,
                        seq![v],
                    )
                },
                Err(e) => {
                    &&& e == Error::BufferTooShort
                    &&& 1 > old(self).left()
                    &&& final(self).off == old(self).off
                    &&& final(self).data() == old(self).data()
                },
            },
    {
        if self.cap() < 1 {
            return Err(Error::BufferTooShort);
        }
        self.buf[self.off] = v;
        self.off = self.off + 1;
        assert(self.data() =~= overwrite(old(self).data(), old(self).off as int, seq![v]));
        Ok(())
    }

    /// Writes `v` in two bytes.
    pub fn put_u16(&mut self, v: u16) -> (res: Result<(), Error>)
        requires
            old(self).wf(),
        ensures
            final(self).wf(),
            final(final(self).buf)@ == final(old(self).buf)@,
            match res {
                Ok(_) => {
                    &&& 2 <= old(self).left()
                    &&& final(self).off == old(self).off + 2
                    &&& final(self).data() == overwrite(
                        old(self).data(),
                        old(self).off as int,
                        be_bytes(v as nat, 2),
                    )
                },
                Err(e) => {
                    &&& e == Error::BufferTooShort
                    &&& 2 > old(self).left()
                    &&& final(self).off == old(self).off
                    &&& final(self).data() == old(self).data()
                },
            },
    {
        self.put_be(v as u64, 2)
    }

    /// Writes the low three bytes of `v`.
    pub fn put_u24(&mut self, v: u32) -> (res: Result<(), Error>)
        requires
            old(self).wf(),
        ensures
            final(self).wf(),
            final(final(self).buf)@ == final(old(self).buf)@,
            match res {
                Ok(_) => {
                    &&& 3 <= old(self).left()
                    &&& final(self).off == old(self).off + 3
                    &&& final(self).data() == overwrite(
                        old(self).data(),
                        old(self).off as int,
                        be_bytes(v as nat, 3),
                    )
                },
                Err(e) => {
                    &&& e == Error::BufferTooShort
                    &&& 3 > old(self).left()
                    &&& final(self).off == old(self).off
                    &&& final(self).data() == old(self).data()
                },
            },
    {
        self.put_be(v as u64, 3)
    }

    /// Writes `v` in four bytes.
    pub fn put_u32(&mut self, v: u32) -> (res: Result<(), Error>)
        requires
            old(self).wf(),
        ensures
            final(self).wf(),
            final(final(self).buf)@ == final(old(self).buf)@,
            match res {
                Ok(_) => {
                    &&& 4 <= old(self).left()
                    &&& final(self).off == old(self).off + 4
                    &&& final(self).data() == overwrite(
                        old(self).data(),
                        old(self).off as int,
                        be_bytes(v as nat, 4),
                    )
                },
                Err(e) => {
                    &&& e == Error::BufferTooShort
                    &&& 4 > old(self).left()
                    &&& final(self).off == old(self).off
                    &&& final(self).data() == old(self).data()
                },
            },
    {
        self.put_be(v as u64, 4)
    }

    /// Reads a variable-length integer.
    pub fn get_varint(&mut self) -> (res: Result<u64, Error>)
        requires
            old(self).wf(),
        ensures
            final(self).wf(),
            final(self).data() == old(self).data(),
            final(final(self).buf)@ == final(old(self).buf)@,
            match res {
                Ok(v) => {
                    let size = varint_size(old(self).data()[old(self).off as int]);
                    &&& 1 <= old(self).left()
                    &&& size <= old(self).left()
                    &&& final(self).off == old(self).off + size
                    &&& v == varint_at(old(self).data(), old(self).off as int)
                    &&& v < VARINT_LIMIT
                },
                Err(e) => {
                    &&& e == Error::BufferTooShort
                    &&& {
                        ||| old(self).left() < 1
                        ||| old(self).left() < varint_size(
                            old(self).data()[old(self).off as int],
                        )
                    }
                    &&& final(self).off == old(self).off
                },
            },
    {
        if self.cap() < 1 {
            return Err(Error::BufferTooShort);
        }
        let first: u8 = self.buf[self.off];
        let (n, tag): (usize, u64) = if first < 0x40 {
            (1, 0)
        } else if first < 0x80 {
            (2, 0x4000)
        } else if first < 0xc0 {
            (4, 0x8000_0000)
        } else {
            (8, 0xc000_0000_0000_0000)
        };
        match self.get_be(n) {
            Ok(v) => {
                proof {
                    let s = self.data().subrange(old(self).off as int, old(self).off + n);
                    lemma_pow256_values();
                    assert(s[0] == first);
                    if n == 1 {
                        lemma_be_value_first(s, 1);
                    } else if n == 2 {
                        lemma_be_value_first(s, 0x100);
                    } else if n == 4 {
                        lemma_be_value_first(s, 0x100_0000);
                    } else {
                        lemma_be_value_first(s, 0x100_0000_0000_0000);
                    }
                }
                Ok(v - tag)
            },
            Err(e) => Err(e),
        }
    }

    /// Writes `v` as a variable-length integer.
    pub fn put_varint(&mut self, v: u64) -> (res: Result<(), Error>)
        requires
            old(self).wf(),
            v < VARINT_LIMIT,
        ensures
            final(self).wf(),
            final(final(self).buf)@ == final(old(self).buf)@,
            match res {
                Ok(_) => {
                    &&& varint_len(v as nat) <= old(self).left()
                    &&& final(self).off == old(self).off + varint_len(v as nat)
                    &&& final(self).data() == overwrite(
                        old(self).data(),
                        old(self).off as int,
                        varint_bytes(v as nat),
                    )
                },
                Err(e) => {
                    &&& e == Error::BufferTooShort
                    &&& varint_len(v as nat) > old(self).left()
                    &&& final(self).off == old(self).off
                    &&& final(self).data() == old(self).data()
                },
            },
    {
        if v < 0x40 {
            self.put_be(v, 1)
        } else if v < 0x4000 {
            self.put_be(v + 0x4000, 2)
        } else if v < 0x4000_0000 {
            self.put_be(v + 0x8000_0000, 4)
        } else {
            self.put_be(v + 0xc000_0000_0000_0000, 8)
        }
    }

    /// Takes the next `len` bytes as a cursor of their own and moves past them.
    pub fn get_bytes(&mut self, len: usize) -> (res: Result<Octets<'_>, Error>)
        requires
            old(self).wf(),
        ensures
            final(final(self).buf)@ == final(old(self).buf)@,
            match res {
                Ok(o) => {
                    &&& len <= old(self).left()
                    &&& o.wf()
                    &&& o.off == 0
                    &&& o.data() == old(self).data().subrange(
                        old(self).off as int,
                        old(self).off + len,
                    )
                    &&& final(self).off == old(self).off + len
                    &&& final(self).data() == old(self).data().take(
                        old(self).off as int,
                    ) + final(o.buf)@ + old(self).data().skip(
                        old(self).off + len,
                    )
                },
                Err(e) => {
                    &&& e == Error::BufferTooShort
                    &&& len > old(self).left()
                    &&& final(self).off == old(self).off
                    &&& final(self).data() == old(self).data()
                },
            },
    {
        if self.cap() < len {
            return Err(Error::BufferTooShort);
        }
        let off: usize = self.off;
        self.off = off + len;
        let (_, rest) = self.buf.split_at_mut(off);
        let (bytes, _) = rest.split_at_mut(len);
        Ok(Octets { buf: bytes, off: 0 })
    }

    /// Takes the next bytes, as many as a variable-length integer before them
    /// says, as a cursor of their own and moves past them.
    pub fn get_bytes_with_varint_length(&mut self) -> (res: Result<Octets<'_>, Error>)
        requires
            old(self).wf(),
        ensures
            final(final(self).buf)@ == final(old(self).buf)@,
            ({
                let data = old(self).data();
                let pos = old(self).off as int;
                let size = varint_size(data[pos]);
                let start = pos + size;
                let len = varint_at(data, pos) as usize;
                match res {
                    Ok(o) => {
                        &&& 1 <= old(self).left()
                        &&& size <= old(self).left()
                        &&& start + len <= data.len()
                        &&& o.wf()
                        &&& o.off == 0
                        &&& o.data() == data.subrange(start, start + len)
                        &&& final(self).off == start + len
                        &&& final(self).data() == data.take(start) + final(o.buf)@ + data.skip(
                            start + len,
                        )
                    },
                    Err(e) => {
                        &&& e == Error::BufferTooShort
                        &&& final(self).data() == data
                        &&& if 1 <= old(self).left() && size <= old(self).left() {
                            &&& start + len > data.len()
                            &&& final(self).off == start
                        } else {
                            final(self).off == pos
                        }
                    },
                }
            }),
    {
        match self.get_varint() {
            Ok(len) => self.get_bytes(len as usize),
            Err(e) => Err(e),
        }
    }

    /// The next `len` bytes as a cursor of their own.
    pub fn peek_bytes(&mut self, len: usize) -> (res: Result<Octets<'_>, Error>)
        requires
            old(self).wf(),
        ensures
            final(final(self).buf)@ == final(old(self).buf)@,
            final(self).off == old(self).off,
            match res {
                Ok(o) => {
                    &&& len <= old(self).left()
                    &&& o.wf()
                    &&& o.off == 0
                    &&& o.data() == old(self).data().subrange(
                        old(self).off as int,
                        old(self).off + len,
                    )
                    &&& final(self).data() == old(self).data().take(
                        old(self).off as int,
                    ) + final(o.buf)@ + old(self).data().skip(old(self).off + len)
                },
                Err(e) => {
                    &&& e == Error::BufferTooShort
                    &&& len > old(self).left()
                    &&& final(self).data() == old(self).data()
                },
            },
    {
        match self.slice(len) {
            Ok(bytes) => Ok(Octets { buf: bytes, off: 0 }),
            Err(e) => Err(e),
        }
    }

    /// Writes `v`.
    pub fn put_bytes(&mut self, v: &[u8]) -> (res: Result<(), Error>)
        requires
            old(self).wf(),
        ensures
            final(self).wf(),
            final(final(self).buf)@ == final(old(self).buf)@,
            match res {
                Ok(_) => {
                    &&& v@.len() <= old(self).left()
                    &&& final(self).off == old(self).off + v@.len()
                    &&& final(self).data() == overwrite(
                        old(self).data(),
                        old(self).off as int,
                        v@,
                    )
                },
                Err(e) => {
                    &&& e == Error::BufferTooShort
                    &&& v@.len() > old(self).left()
                    &&& final(self).off == old(self).off
                    &&& final(self).data() == old(self).data()
                },
            },
    {
        let len: usize = v.len();
        if self.cap() < len {
            return Err(Error::BufferTooShort);
        }
        let ghost before = self.data();
        let mut i: usize = 0;
        while i < len
            invariant
                i <= len,
                len == v@.len(),
                self.off == old(self).off,
                self.off + len <= self.buf.len(),
                self.data().len() == before.len(),
                forall|j: int|
                    0 <= j < before.len() && !(self.off <= j < self.off + i) ==> self.data()[j]
                        == before[j],
                forall|j: int| 0 <= j < i ==> self.data()[self.off + j] == #[trigger] v@[j],
                final(self.buf)@ == final(old(self).buf)@,
            decreases len - i,
        {
            self.buf[self.off + i] = v[i];
            i += 1;
        }
        self.off = self.off + len;
        assert(self.data() =~= overwrite(before, old(self).off as int, v@));
        Ok(())
    }

    /// The first `off` bytes of the buffer and the rest of it, as two cursors.
    pub fn split_at(&mut self, off: usize) -> (res: Result<(Octets<'_>, Octets<'_>), Error>)
        ensures
            final(final(self).buf)@ == final(old(self).buf)@,
            final(self).off == old(self).off,
            match res {
                Ok((left, right)) => {
                    &&& off <= old(self).data().len()
                    &&& left.wf()
                    &&& right.wf()
                    &&& left.off == 0
                    &&& right.off == 0
                    &&& left.data() == old(self).data().take(off as int)
                    &&& right.data() == old(self).data().skip(off as int)
                    &&& final(self).data() == final(left.buf)@ + final(right.buf)@
                },
                Err(e) => {
                    &&& e == Error::BufferTooShort
                    &&& off > old(self).data().len()
                    &&& final(self).data() == old(self).data()
                },
            },
    {
        if self.len() < off {
            return Err(Error::BufferTooShort);
        }
        let (left, right) = self.buf.split_at_mut(off);
        Ok((Octets { buf: left, off: 0 }, Octets { buf: right, off: 0 }))
    }

    /// The next `len` bytes.
    pub fn slice(&mut self, len: usize) -> (res: Result<&mut [u8], Error>)
        requires
            old(self).wf(),
        ensures
            final(final(self).buf)@ == final(old(self).buf)@,
            final(self).off == old(self).off,
            match res {
                Ok(bytes) => {
                    &&& len <= old(self).left()
                    &&& bytes@ == old(self).data().subrange(
                        old(self).off as int,
                        old(self).off + len,
                    )
                    &&& final(self).data() == old(self).data().take(
                        old(self).off as int,
                    ) + final(bytes)@ + old(self).data().skip(old(self).off + len)
                },
                Err(e) => {
                    &&& e == Error::BufferTooShort
                    &&& len > old(self).left()
                    &&& final(self).data() == old(self).data()
                },
            },
    {
        if self.cap() < len {
            return Err(Error::BufferTooShort);
        }
        let off: usize = self.off;
        let (_, rest) = self.buf.split_at_mut(off);
        let (bytes, _) = rest.split_at_mut(len);
        Ok(bytes)
    }

    /// The last `len` bytes of the buffer.
    pub fn slice_last(&mut self, len: usize) -> (res: Result<&mut [u8], Error>)
        requires
            old(self).wf(),
        ensures
            final(final(self).buf)@ == final(old(self).buf)@,
            final(self).off == old(self).off,
            match res {
                Ok(bytes) => {
                    &&& len <= old(self).left()
                    &&& bytes@ == old(self).data().skip(old(self).data().len() - len)
                    &&& final(self).data() == old(self).data().take(
                        old(self).data().len() - len,
                    ) + final(bytes)@
                },
                Err(e) => {
                    &&& e == Error::BufferTooShort
                    &&& len > old(self).left()
                    &&& final(self).data() == old(self).data()
                },
            },
    {
        if self.cap() < len {
            return Err(Error::BufferTooShort);
        }
        let start: usize = self.buf.len() - len;
        let (_, bytes) = self.buf.split_at_mut(start);
        Ok(bytes)
    }
}

/// A cursor is well formed if its position is in its buffer, and what is left is
/// what lies behind the position.
pub proof fn cursor_parts(b: &Octets<'_>)
    ensures
        b.wf() <==> b.off <= b.data().len(),
        b.left() == b.data().len() - b.off,
{
}

} // verus!
