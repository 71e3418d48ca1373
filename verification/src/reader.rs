//! A sequential, bounds-checked reader over an owned byte buffer.

use vstd::prelude::*;

use crate::bytes::{be_uint, pow256};
use crate::errors::DbError;
use crate::varint;

verus! {

broadcast use vstd::std_specs::vec::axiom_spec_len;

/// A byte source with a position. Reads are bounds-checked: a read past the
/// end returns `ShortRead` and leaves the reader unchanged.
pub struct ByteReader {
    pub data: Vec<u8>,
    pub pos: usize,
}

impl ByteReader {
    pub fn new(data: Vec<u8>) -> (r: ByteReader)
        ensures
            r.data@ == data@,
            r.pos == 0,
    {
        ByteReader { data, pos: 0 }
    }

    /// Bytes left between the position and the end of the buffer.
    pub open spec fn spec_remaining(&self) -> int {
        self.data@.len() - self.pos
    }

    pub fn remaining(&self) -> (r: usize)
        ensures
            r == if self.spec_remaining() >= 0 { self.spec_remaining() } else { 0 },
    {
        if self.pos > self.data.len() {
            0
        } else {
            self.data.len() - self.pos
        }
    }

    /// Reads exactly `n` bytes, advancing the position past them.
    pub fn read_exact(&mut self, n: usize) -> (r: Result<Vec<u8>, DbError>)
        ensures
            match r {
                Ok(bytes) => {
                    &&& old(self).pos + n <= old(self).data@.len()
                    &&& bytes@ == old(self).data@.subrange(
                        old(self).pos as int,
                        old(self).pos + n,
                    )
                    &&& final(self).pos == old(self).pos + n
                    &&& final(self).data@ == old(self).data@
                },
                Err(e) => {
                    &&& e == DbError::ShortRead
                    &&& old(self).pos + n > old(self).data@.len()
                    &&& *final(self) == *old(self)
                },
            },
    {
        if self.pos > self.data.len() || n > self.data.len() - self.pos {
            return Err(DbError::ShortRead);
        }
        let mut out: Vec<u8> = Vec::new();
        let mut i: usize = 0;
        while i < n
            invariant
                0 <= i <= n,
                self.pos + n <= self.data@.len(),
                self.data@.len() <= usize::MAX,
                self.pos == old(self).pos,
                self.data@ == old(self).data@,
                out@ == self.data@.subrange(self.pos as int, self.pos + i),
            decreases n - i,
        {
            out.push(self.data[self.pos + i]);
            proof {
                assert(out@ =~= self.data@.subrange(
                    self.pos as int,
                    self.pos + i + 1,
                ));
            }
            i = i + 1;
        }
        self.pos = self.pos + n;
        Ok(out)
    }

    /// Reads the `n`-byte (`n <= 8`) unsigned big-endian field at the
    /// position, advancing past it.
    pub fn read_be_uint(&mut self, n: usize) -> (r: Result<u64, DbError>)
        requires
            n <= 8,
        ensures
            match r {
                Ok(v) => {
                    &&& old(self).pos + n <= old(self).data@.len()
                    &&& v == be_uint(old(self).data@, old(self).pos as int, n as nat)
                    &&& v < pow256(n as nat)
                    &&& final(self).pos == old(self).pos + n
                    &&& final(self).data@ == old(self).data@
                },
                Err(e) => {
                    &&& e == DbError::ShortRead
                    &&& old(self).pos + n > old(self).data@.len()
                    &&& *final(self) == *old(self)
                },
            },
    {
        if self.pos > self.data.len() || n > self.data.len() - self.pos {
            return Err(DbError::ShortRead);
        }
        let v = crate::bytes::read_be_uint(self.data.as_slice(), self.pos, n);
        proof {
            crate::bytes::lemma_be_uint_bound(self.data@, self.pos as int, n as nat);
        }
        self.pos = self.pos + n;
        Ok(v)
    }

    /// Reads the varint at the position, advancing past it. Returns the
    /// decoded value and its byte count.
    pub fn read_varint(&mut self) -> (r: Result<(u64, usize), DbError>)
        ensures
            match r {
                Ok(p) => {
                    &&& varint::varint_complete(old(self).data@, old(self).pos as int)
                    &&& p.0 == varint::varint_val(old(self).data@, old(self).pos as int)
                    &&& p.1 == varint::varint_size(old(self).data@, old(self).pos as int)
                    &&& 1 <= p.1 <= 9
                    &&& final(self).pos == old(self).pos + p.1
                    &&& final(self).data@ == old(self).data@
                },
                Err(e) => {
                    &&& e == DbError::ShortRead
                    &&& !varint::varint_complete(old(self).data@, old(self).pos as int)
                    &&& *final(self) == *old(self)
                },
            },
    {
        let dlen: usize = self.data.len();
        match varint::read_varint(self.data.as_slice(), self.pos) {
            Ok(p) => {
                proof {
                    assert(self.pos + p.1 <= dlen);
                }
                self.pos = self.pos + p.1;
                Ok(p)
            },
            Err(e) => Err(e),
        }
    }
}

} // verus!
