use vstd::prelude::*;
use vstd::slice::slice_index_get;
use crate::error::MtfError;

verus! {

broadcast use vstd::slice::group_slice_axioms;

/// The little-endian 16-bit word starting at byte `i`.
pub open spec fn le16(s: Seq<u8>, i: int) -> u16 {
    (s[i] + s[i + 1] * 0x100) as u16
}

/// The little-endian 32-bit word starting at byte `i`.
pub open spec fn le32(s: Seq<u8>, i: int) -> u32 {
    (s[i] + s[i + 1] * 0x100 + s[i + 2] * 0x10000 + s[i + 3] * 0x1000000) as u32
}

/// The little-endian 64-bit word starting at byte `i`.
pub open spec fn le64(s: Seq<u8>, i: int) -> u64 {
    (s[i] + s[i + 1] * 0x100 + s[i + 2] * 0x10000 + s[i + 3] * 0x1000000 + s[i + 4] * 0x100000000
        + s[i + 5] * 0x10000000000 + s[i + 6] * 0x1000000000000 + s[i + 7]
        * 0x100000000000000) as u64
}

/// A positioned view over a byte slice with little-endian primitive reads;
/// never allocates (but for `read_exact`). The position may be set past the
/// end; any read from there fails with `Io`.
pub struct ByteCursor<'a> {
    pub data: &'a [u8],
    pub pos: usize,
}

impl<'a> ByteCursor<'a> {
    /// Whether `n` more bytes are available at the current position.
    pub open spec fn has(&self, n: int) -> bool {
        self.pos + n <= self.data@.len()
    }

    pub fn new(data: &'a [u8]) -> (r: ByteCursor<'a>)
        ensures
            r.data@ == data@,
            r.pos == 0,
    {
        ByteCursor { data, pos: 0 }
    }

    pub fn position(&self) -> (r: usize)
        ensures
            r == self.pos,
    {
        self.pos
    }

    /// Positions past the end are permitted; subsequent reads fail.
    pub fn set_position(&mut self, pos: usize)
        ensures
            final(self).data == old(self).data,
            final(self).pos == pos,
    {
        self.pos = pos;
    }

    /// Whether `n` more bytes are available, executably.
    pub fn can_read(&self, n: usize) -> (r: bool)
        ensures
            r == self.has(n as int),
            self.data@.len() <= usize::MAX,
    {
        self.pos <= self.data.len() && self.data.len() - self.pos >= n
    }

    pub fn read_u8(&mut self) -> (r: Result<u8, MtfError>)
        ensures
            final(self).data == old(self).data,
            old(self).has(1) ==> r == Ok::<u8, MtfError>(old(self).data@[old(self).pos as int])
                && final(self).pos == old(self).pos + 1,
            !old(self).has(1) ==> r == Err::<u8, MtfError>(MtfError::Io) && final(self).pos == old(self).pos,
    {
        if self.can_read(1) {
            let b = *slice_index_get(self.data, self.pos);
            self.pos = self.pos + 1;
            Ok(b)
        } else {
            Err(MtfError::Io)
        }
    }

    pub fn read_i8(&mut self) -> (r: Result<i8, MtfError>)
        ensures
            final(self).data == old(self).data,
            old(self).has(1) ==> r == Ok::<i8, MtfError>(
                old(self).data@[old(self).pos as int] as i8,
            ) && final(self).pos == old(self).pos + 1,
            !old(self).has(1) ==> r == Err::<i8, MtfError>(MtfError::Io) && final(self).pos == old(self).pos,
    {
        match self.read_u8() {
            Ok(b) => Ok(b as i8),
            Err(e) => Err(e),
        }
    }

    pub fn read_u16(&mut self) -> (r: Result<u16, MtfError>)
        ensures
            final(self).data == old(self).data,
            old(self).has(2) ==> r == Ok::<u16, MtfError>(le16(old(self).data@, old(self).pos as int))
                && final(self).pos == old(self).pos + 2,
            !old(self).has(2) ==> r == Err::<u16, MtfError>(MtfError::Io) && final(self).pos == old(self).pos,
    {
        if self.can_read(2) {
            let b0 = *slice_index_get(self.data, self.pos) as u16;
            let b1 = *slice_index_get(self.data, self.pos + 1) as u16;
            self.pos = self.pos + 2;
            Ok(b0 + b1 * 0x100)
        } else {
            Err(MtfError::Io)
        }
    }

    pub fn read_u32(&mut self) -> (r: Result<u32, MtfError>)
        ensures
            final(self).data == old(self).data,
            old(self).has(4) ==> r == Ok::<u32, MtfError>(le32(old(self).data@, old(self).pos as int))
                && final(self).pos == old(self).pos + 4,
            !old(self).has(4) ==> r == Err::<u32, MtfError>(MtfError::Io) && final(self).pos == old(self).pos,
    {
        if self.can_read(4) {
            let b0 = *slice_index_get(self.data, self.pos) as u32;
            let b1 = *slice_index_get(self.data, self.pos + 1) as u32;
            let b2 = *slice_index_get(self.data, self.pos + 2) as u32;
            let b3 = *slice_index_get(self.data, self.pos + 3) as u32;
            self.pos = self.pos + 4;
            Ok(b0 + b1 * 0x100 + b2 * 0x10000 + b3 * 0x1000000)
        } else {
            Err(MtfError::Io)
        }
    }

    pub fn read_u64(&mut self) -> (r: Result<u64, MtfError>)
        ensures
            final(self).data == old(self).data,
            old(self).has(8) ==> r == Ok::<u64, MtfError>(le64(old(self).data@, old(self).pos as int))
                && final(self).pos == old(self).pos + 8,
            !old(self).has(8) ==> r == Err::<u64, MtfError>(MtfError::Io) && final(self).pos == old(self).pos,
    {
        if self.can_read(8) {
            let b0 = *slice_index_get(self.data, self.pos) as u64;
            let b1 = *slice_index_get(self.data, self.pos + 1) as u64;
            let b2 = *slice_index_get(self.data, self.pos + 2) as u64;
            let b3 = *slice_index_get(self.data, self.pos + 3) as u64;
            let b4 = *slice_index_get(self.data, self.pos + 4) as u64;
            let b5 = *slice_index_get(self.data, self.pos + 5) as u64;
            let b6 = *slice_index_get(self.data, self.pos + 6) as u64;
            let b7 = *slice_index_get(self.data, self.pos + 7) as u64;
            self.pos = self.pos + 8;
            Ok(
                b0 + b1 * 0x100 + b2 * 0x10000 + b3 * 0x1000000 + b4 * 0x100000000 + b5
                    * 0x10000000000 + b6 * 0x1000000000000 + b7 * 0x100000000000000,
            )
        } else {
            Err(MtfError::Io)
        }
    }

    /// Copies the next `n` bytes out; fails with `Io` on a short tail.
    pub fn read_exact(&mut self, n: usize) -> (r: Result<Vec<u8>, MtfError>)
        ensures
            final(self).data == old(self).data,
            old(self).has(n as int) ==> r is Ok && r.unwrap()@ == old(self).data@.subrange(
                old(self).pos as int,
                old(self).pos + n,
            ) && final(self).pos == old(self).pos + n,
            !old(self).has(n as int) ==> r == Err::<Vec<u8>, MtfError>(MtfError::Io) && final(self).pos == old(self).pos,
    {
        if self.can_read(n) {
            let mut out: Vec<u8> = Vec::new();
            let mut i: usize = 0;
            while i < n
                invariant
                    i <= n,
                    self.pos + n <= self.data@.len() <= usize::MAX,
                    out@ == self.data@.subrange(self.pos as int, self.pos + i),
                decreases n - i,
            {
                out.push(*slice_index_get(self.data, self.pos + i));
                i = i + 1;
                proof {
                    assert(out@ =~= self.data@.subrange(self.pos as int, self.pos + i));
                }
            }
            self.pos = self.pos + n;
            Ok(out)
        } else {
            Err(MtfError::Io)
        }
    }
}

} // verus!
