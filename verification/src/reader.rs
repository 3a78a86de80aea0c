//! The byte reader: exact-length reads over an in-memory buffer, with
//! little- and big-endian integer decoding.  Packed encodings re-parse
//! their blob through a second instance of the same reader.

use vstd::prelude::*;
use crate::model::{le_val, be_val, lemma_le_val2, lemma_le_val4, lemma_le_val8, lemma_be_val4, lemma_be_val8};
use crate::types::{RdbError, RdbResult};

verus! {

/// A reader over an owned byte buffer with a current position.  Reads
/// never run past the end: a short read reports `MalformedInput` and
/// leaves the reader unchanged.
pub struct ByteReader {
    data: Vec<u8>,
    pos: usize,
}

impl ByteReader {
    /// The whole underlying input.
    pub closed spec fn bytes(&self) -> Seq<u8> {
        self.data@
    }

    /// The current read position.
    pub closed spec fn pos(&self) -> int {
        self.pos as int
    }

    /// The position never runs past the end.
    pub open spec fn wf(&self) -> bool {
        0 <= self.pos() <= self.bytes().len()
    }

    pub fn new(data: Vec<u8>) -> (r: ByteReader)
        ensures
            r.bytes() == data@,
            r.pos() == 0,
            r.wf(),
    {
        ByteReader { data, pos: 0 }
    }

    /// The current offset, for error reporting.
    pub fn position(&self) -> (r: usize)
        ensures
            r as int == self.pos(),
    {
        self.pos
    }

    /// How many bytes are left.
    pub fn remaining(&self) -> (r: usize)
        requires
            self.wf(),
        ensures
            r as int == self.bytes().len() - self.pos(),
    {
        self.data.len() - self.pos
    }

    /// Reads one byte.
    pub fn read_u8(&mut self) -> (r: RdbResult<u8>)
        requires
            old(self).wf(),
        ensures
            final(self).wf(),
            final(self).bytes() == old(self).bytes(),
            r is Ok <==> old(self).pos() < old(self).bytes().len(),
            r matches Ok(b) ==> b == old(self).bytes()[old(self).pos()]
                && final(self).pos() == old(self).pos() + 1,
            r is Err ==> *final(self) == *old(self),
            r matches Err(e) ==> e is MalformedInput,
    {
        if self.pos < self.data.len() {
            let b = self.data[self.pos];
            self.pos = self.pos + 1;
            Ok(b)
        } else {
            Err(RdbError::MalformedInput(self.pos))
        }
    }

    /// Reads exactly `n` bytes.
    pub fn read_bytes(&mut self, n: usize) -> (r: RdbResult<Vec<u8>>)
        requires
            old(self).wf(),
        ensures
            final(self).wf(),
            final(self).bytes() == old(self).bytes(),
            r is Ok <==> old(self).pos() + n <= old(self).bytes().len(),
            r matches Ok(v) ==> v@ == old(self).bytes().subrange(old(self).pos(),
                old(self).pos() + n) && final(self).pos() == old(self).pos() + n,
            r is Err ==> *final(self) == *old(self),
            r matches Err(e) ==> e is MalformedInput,
    {
        if n > self.data.len() - self.pos {
            return Err(RdbError::MalformedInput(self.pos));
        }
        let mut out: Vec<u8> = Vec::new();
        let mut k: usize = 0;
        while k < n
            invariant
                self == old(self),
                self.wf(),
                k <= n,
                self.pos + n <= self.data.len(),
                out@ == self.data@.subrange(self.pos as int, self.pos + k),
            decreases n - k,
        {
            out.push(self.data[self.pos + k]);
            k = k + 1;
            proof {
                assert(out@ =~= self.data@.subrange(self.pos as int, self.pos + k));
            }
        }
        self.pos = self.pos + n;
        Ok(out)
    }

    /// Advances past `n` bytes without materialising them.
    pub fn skip_bytes(&mut self, n: usize) -> (r: RdbResult<()>)
        requires
            old(self).wf(),
        ensures
            final(self).wf(),
            final(self).bytes() == old(self).bytes(),
            r is Ok <==> old(self).pos() + n <= old(self).bytes().len(),
            r is Ok ==> final(self).pos() == old(self).pos() + n,
            r is Err ==> *final(self) == *old(self),
            r matches Err(e) ==> e is MalformedInput,
    {
        if n > self.data.len() - self.pos {
            Err(RdbError::MalformedInput(self.pos))
        } else {
            self.pos = self.pos + n;
            Ok(())
        }
    }

    /// Reads everything up to the end of the input.
    pub fn read_rest(&mut self) -> (r: Vec<u8>)
        requires
            old(self).wf(),
        ensures
            final(self).wf(),
            final(self).bytes() == old(self).bytes(),
            r@ == old(self).bytes().skip(old(self).pos()),
            final(self).pos() == old(self).bytes().len(),
    {
        let n = self.data.len() - self.pos;
        let ghost p = self.pos as int;
        let r = match self.read_bytes(n) {
            Ok(v) => v,
            Err(_) => {
                proof {
                    assert(false);
                }
                Vec::new()
            },
        };
        proof {
            assert(r@ =~= old(self).bytes().skip(p));
        }
        r
    }

    /// Reads a little-endian u16.
    pub fn read_le_u16(&mut self) -> (r: RdbResult<u16>)
        requires
            old(self).wf(),
        ensures
            final(self).wf(),
            final(self).bytes() == old(self).bytes(),
            r is Ok <==> old(self).pos() + 2 <= old(self).bytes().len(),
            r matches Ok(v) ==> v as nat == le_val(old(self).bytes().subrange(old(self).pos(),
                old(self).pos() + 2)) && final(self).pos() == old(self).pos() + 2,
            r is Err ==> *final(self) == *old(self),
            r matches Err(e) ==> e is MalformedInput,
    {
        let b = self.read_bytes(2)?;
        proof {
            lemma_le_val2(b@);
        }
        Ok(b[0] as u16 + b[1] as u16 * 0x100)
    }

    /// Reads a little-endian u32.
    pub fn read_le_u32(&mut self) -> (r: RdbResult<u32>)
        requires
            old(self).wf(),
        ensures
            final(self).wf(),
            final(self).bytes() == old(self).bytes(),
            r is Ok <==> old(self).pos() + 4 <= old(self).bytes().len(),
            r matches Ok(v) ==> v as nat == le_val(old(self).bytes().subrange(old(self).pos(),
                old(self).pos() + 4)) && final(self).pos() == old(self).pos() + 4,
            r is Err ==> *final(self) == *old(self),
            r matches Err(e) ==> e is MalformedInput,
    {
        let b = self.read_bytes(4)?;
        proof {
            lemma_le_val4(b@);
        }
        Ok(b[0] as u32 + b[1] as u32 * 0x100 + b[2] as u32 * 0x10000 + b[3] as u32 * 0x1000000)
    }

    /// Reads a little-endian u64.
    pub fn read_le_u64(&mut self) -> (r: RdbResult<u64>)
        requires
            old(self).wf(),
        ensures
            final(self).wf(),
            final(self).bytes() == old(self).bytes(),
            r is Ok <==> old(self).pos() + 8 <= old(self).bytes().len(),
            r matches Ok(v) ==> v as nat == le_val(old(self).bytes().subrange(old(self).pos(),
                old(self).pos() + 8)) && final(self).pos() == old(self).pos() + 8,
            r is Err ==> *final(self) == *old(self),
            r matches Err(e) ==> e is MalformedInput,
    {
        let b = self.read_bytes(8)?;
        proof {
            lemma_le_val8(b@);
        }
        Ok(b[0] as u64 + b[1] as u64 * 0x100 + b[2] as u64 * 0x10000 + b[3] as u64 * 0x1000000
            + b[4] as u64 * 0x100000000 + b[5] as u64 * 0x10000000000
            + b[6] as u64 * 0x1000000000000 + b[7] as u64 * 0x100000000000000)
    }

    /// Reads a big-endian u32.
    pub fn read_be_u32(&mut self) -> (r: RdbResult<u32>)
        requires
            old(self).wf(),
        ensures
            final(self).wf(),
            final(self).bytes() == old(self).bytes(),
            r is Ok <==> old(self).pos() + 4 <= old(self).bytes().len(),
            r matches Ok(v) ==> v as nat == be_val(old(self).bytes().subrange(old(self).pos(),
                old(self).pos() + 4)) && final(self).pos() == old(self).pos() + 4,
            r is Err ==> *final(self) == *old(self),
            r matches Err(e) ==> e is MalformedInput,
    {
        let b = self.read_bytes(4)?;
        proof {
            lemma_be_val4(b@);
        }
        Ok(b[3] as u32 + b[2] as u32 * 0x100 + b[1] as u32 * 0x10000 + b[0] as u32 * 0x1000000)
    }

    /// Reads a big-endian u64.
    pub fn read_be_u64(&mut self) -> (r: RdbResult<u64>)
        requires
            old(self).wf(),
        ensures
            final(self).wf(),
            final(self).bytes() == old(self).bytes(),
            r is Ok <==> old(self).pos() + 8 <= old(self).bytes().len(),
            r matches Ok(v) ==> v as nat == be_val(old(self).bytes().subrange(old(self).pos(),
                old(self).pos() + 8)) && final(self).pos() == old(self).pos() + 8,
            r is Err ==> *final(self) == *old(self),
            r matches Err(e) ==> e is MalformedInput,
    {
        let b = self.read_bytes(8)?;
        proof {
            lemma_be_val8(b@);
        }
        Ok(b[7] as u64 + b[6] as u64 * 0x100 + b[5] as u64 * 0x10000 + b[4] as u64 * 0x1000000
            + b[3] as u64 * 0x100000000 + b[2] as u64 * 0x10000000000
            + b[1] as u64 * 0x1000000000000 + b[0] as u64 * 0x100000000000000)
    }
}

} // verus!
