use vstd::prelude::*;

use crate::error::DecodeError;

verus! {

/// The unsigned value of the two bytes at `i`, little-endian.
pub open spec fn u16_le_at(b: Seq<u8>, i: int) -> u16
    recommends
        0 <= i,
        i + 2 <= b.len(),
{
    (b[i] + 256 * b[i + 1]) as u16
}

/// The unsigned value of the four bytes at `i`, little-endian.
pub open spec fn u32_le_at(b: Seq<u8>, i: int) -> u32
    recommends
        0 <= i,
        i + 4 <= b.len(),
{
    (b[i] + 256 * b[i + 1] + 65536 * b[i + 2] + 16777216 * b[i + 3]) as u32
}

/// The unsigned value of the four bytes at `i`, big-endian.
pub open spec fn u32_be_at(b: Seq<u8>, i: int) -> u32
    recommends
        0 <= i,
        i + 4 <= b.len(),
{
    (b[i + 3] + 256 * b[i + 2] + 65536 * b[i + 1] + 16777216 * b[i]) as u32
}

/// Sequential reader over a byte buffer.  Every read either returns the
/// value encoded at the current position and advances past it, or fails
/// with [`DecodeError::Truncated`] and leaves the position unchanged.
pub struct ByteCursor<'a> {
    data: &'a [u8],
    pos: usize,
}

impl<'a> ByteCursor<'a> {
    /// The whole underlying buffer.
    pub closed spec fn bytes(&self) -> Seq<u8> {
        self.data@
    }

    /// The current read position.
    pub closed spec fn pos(&self) -> int {
        self.pos as int
    }

    /// The position never runs past the end of the buffer.
    pub open spec fn wf(&self) -> bool {
        0 <= self.pos() <= self.bytes().len()
    }

    pub fn new(data: &'a [u8]) -> (c: Self)
        ensures
            c.bytes() == data@,
            c.pos() == 0,
            c.wf(),
    {
        ByteCursor { data, pos: 0 }
    }

    /// How many bytes remain to be read.
    pub fn remaining(&self) -> (n: usize)
        requires
            self.wf(),
        ensures
            n == self.bytes().len() - self.pos(),
    {
        self.data.len() - self.pos
    }

    pub fn read_u8(&mut self) -> (r: Result<u8, DecodeError>)
        requires
            old(self).wf(),
        ensures
            final(self).wf(),
            final(self).bytes() == old(self).bytes(),
            old(self).pos() + 1 <= old(self).bytes().len() ==> {
                &&& r == Ok::<u8, DecodeError>(old(self).bytes()[old(self).pos()])
                &&& final(self).pos() == old(self).pos() + 1
            },
            old(self).pos() + 1 > old(self).bytes().len() ==> {
                &&& r == Err::<u8, DecodeError>(DecodeError::Truncated)
                &&& final(self).pos() == old(self).pos()
            },
    {
        if self.pos < self.data.len() {
            let b = self.data[self.pos];
            self.pos = self.pos + 1;
            Ok(b)
        } else {
            Err(DecodeError::Truncated)
        }
    }

    pub fn read_u16_le(&mut self) -> (r: Result<u16, DecodeError>)
        requires
            old(self).wf(),
        ensures
            final(self).wf(),
            final(self).bytes() == old(self).bytes(),
            old(self).pos() + 2 <= old(self).bytes().len() ==> {
                &&& r == Ok::<u16, DecodeError>(u16_le_at(old(self).bytes(), old(self).pos()))
                &&& final(self).pos() == old(self).pos() + 2
            },
            old(self).pos() + 2 > old(self).bytes().len() ==> {
                &&& r == Err::<u16, DecodeError>(DecodeError::Truncated)
                &&& final(self).pos() == old(self).pos()
            },
    {
        if self.data.len() - self.pos >= 2 {
            let b0 = self.data[self.pos];
            let b1 = self.data[self.pos + 1];
            self.pos = self.pos + 2;
            Ok(b0 as u16 + 256 * (b1 as u16))
        } else {
            Err(DecodeError::Truncated)
        }
    }

    pub fn read_u32_le(&mut self) -> (r: Result<u32, DecodeError>)
        requires
            old(self).wf(),
        ensures
            final(self).wf(),
            final(self).bytes() == old(self).bytes(),
            old(self).pos() + 4 <= old(self).bytes().len() ==> {
                &&& r == Ok::<u32, DecodeError>(u32_le_at(old(self).bytes(), old(self).pos()))
                &&& final(self).pos() == old(self).pos() + 4
            },
            old(self).pos() + 4 > old(self).bytes().len() ==> {
                &&& r == Err::<u32, DecodeError>(DecodeError::Truncated)
                &&& final(self).pos() == old(self).pos()
            },
    {
        if self.data.len() - self.pos >= 4 {
            let b0 = self.data[self.pos] as u32;
            let b1 = self.data[self.pos + 1] as u32;
            let b2 = self.data[self.pos + 2] as u32;
            let b3 = self.data[self.pos + 3] as u32;
            self.pos = self.pos + 4;
            Ok(b0 + 256 * b1 + 65536 * b2 + 16777216 * b3)
        } else {
            Err(DecodeError::Truncated)
        }
    }

    pub fn read_u32_be(&mut self) -> (r: Result<u32, DecodeError>)
        requires
            old(self).wf(),
        ensures
            final(self).wf(),
            final(self).bytes() == old(self).bytes(),
            old(self).pos() + 4 <= old(self).bytes().len() ==> {
                &&& r == Ok::<u32, DecodeError>(u32_be_at(old(self).bytes(), old(self).pos()))
                &&& final(self).pos() == old(self).pos() + 4
            },
            old(self).pos() + 4 > old(self).bytes().len() ==> {
                &&& r == Err::<u32, DecodeError>(DecodeError::Truncated)
                &&& final(self).pos() == old(self).pos()
            },
    {
        if self.data.len() - self.pos >= 4 {
            let b0 = self.data[self.pos] as u32;
            let b1 = self.data[self.pos + 1] as u32;
            let b2 = self.data[self.pos + 2] as u32;
            let b3 = self.data[self.pos + 3] as u32;
            self.pos = self.pos + 4;
            Ok(b3 + 256 * b2 + 65536 * b1 + 16777216 * b0)
        } else {
            Err(DecodeError::Truncated)
        }
    }

    /// Reads exactly `n` raw bytes.
    pub fn read_bytes(&mut self, n: usize) -> (r: Result<Vec<u8>, DecodeError>)
        requires
            old(self).wf(),
        ensures
            final(self).wf(),
            final(self).bytes() == old(self).bytes(),
            old(self).pos() + n <= old(self).bytes().len() ==> {
                &&& r matches Ok(v) && v@ == old(self).bytes().subrange(
                    old(self).pos(),
                    old(self).pos() + n,
                )
                &&& final(self).pos() == old(self).pos() + n
            },
            old(self).pos() + n > old(self).bytes().len() ==> {
                &&& r == Err::<Vec<u8>, DecodeError>(DecodeError::Truncated)
                &&& final(self).pos() == old(self).pos()
            },
    {
        if self.data.len() - self.pos >= n {
            let s = vstd::slice::slice_subrange(self.data, self.pos, self.pos + n);
            let v = vstd::slice::slice_to_vec(s);
            self.pos = self.pos + n;
            Ok(v)
        } else {
            Err(DecodeError::Truncated)
        }
    }
}

} // verus!
