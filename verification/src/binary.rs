//! Checked little-endian byte readers.

use vstd::prelude::*;

use crate::error::{DocError, ErrorKind, Result};

verus! {

/// Little-endian `u16` stored at byte `i` of `s`.
pub open spec fn le_u16(s: Seq<u8>, i: int) -> u16 {
    (s[i] as int + 256 * (s[i + 1] as int)) as u16
}

/// Little-endian `u32` stored at byte `i` of `s`.
pub open spec fn le_u32(s: Seq<u8>, i: int) -> u32 {
    (s[i] as int + 256 * (s[i + 1] as int) + 65536 * (s[i + 2] as int) + 16777216 * (
    s[i + 3] as int)) as u32
}

/// Two's-complement `i32` stored little-endian at byte `i` of `s`.
pub open spec fn le_i32(s: Seq<u8>, i: int) -> i32 {
    let u = le_u32(s, i) as int;
    if u < 0x8000_0000 {
        u as i32
    } else {
        (u - 0x1_0000_0000) as i32
    }
}

/// The `n` little-endian `u32` values stored from byte `start` of `s`.
pub open spec fn le_u32_seq(s: Seq<u8>, start: int, n: nat) -> Seq<u32> {
    Seq::new(n, |k: int| le_u32(s, start + 4 * k))
}

/// Whether every value of `s` is strictly smaller than the next one.
pub open spec fn strictly_increasing(s: Seq<u32>) -> bool {
    forall|i: int, j: int| 0 <= i < j < s.len() ==> s[i] < s[j]
}

/// Whether every value of `s` is no larger than the next one.
pub open spec fn non_decreasing(s: Seq<u32>) -> bool {
    forall|i: int, j: int| 0 <= i <= j < s.len() ==> s[i] <= s[j]
}

/// Reads the little-endian `u16` at `offset` of `data`.
pub fn read_u16_le(data: &[u8], offset: usize) -> (res: u16)
    requires
        offset + 2 <= data@.len(),
    ensures
        res == le_u16(data@, offset as int),
{
    data[offset] as u16 + 256 * (data[offset + 1] as u16)
}

/// Reads the little-endian `u32` at `offset` of `data`.
pub fn read_u32_le(data: &[u8], offset: usize) -> (res: u32)
    requires
        offset + 4 <= data@.len(),
    ensures
        res == le_u32(data@, offset as int),
{
    data[offset] as u32 + 256 * (data[offset + 1] as u32) + 65536 * (data[offset + 2] as u32)
        + 16777216 * (data[offset + 3] as u32)
}

/// Reads the little-endian `i32` at `offset` of `data`.
pub fn read_i32_le(data: &[u8], offset: usize) -> (res: i32)
    requires
        offset + 4 <= data@.len(),
    ensures
        res == le_i32(data@, offset as int),
{
    let u = read_u32_le(data, offset);
    if u < 0x8000_0000 {
        u as i32
    } else {
        let below: u32 = 0xFFFF_FFFF - u;
        -(below as i32) - 1
    }
}

/// Sequential reader over a byte slice naming the structure it reads.
pub struct ByteCursor<'a> {
    data: &'a [u8],
    position: usize,
    structure: &'static str,
}

impl<'a> ByteCursor<'a> {
    /// The bytes being read.
    pub closed spec fn bytes(&self) -> Seq<u8> {
        self.data@
    }

    /// The current read offset.
    pub open spec fn pos(&self) -> int {
        self.offset() as int
    }

    /// The current read offset, as a natural number.
    pub closed spec fn offset(&self) -> nat {
        self.position as nat
    }

    /// The structure name used in out-of-bounds errors.
    pub closed spec fn label(&self) -> &'static str {
        self.structure
    }

    /// The cursor's offset never passes the end of its bytes.
    pub closed spec fn wf(&self) -> bool {
        self.position <= self.data@.len()
    }

    /// A well-formed cursor's offset is within its bytes.
    pub proof fn lemma_wf(&self)
        requires
            self.wf(),
        ensures
            self.pos() <= self.bytes().len(),
    {
    }

    /// A cursor at the start of `data`.
    pub fn new(data: &'a [u8], structure: &'static str) -> (res: Self)
        ensures
            res.bytes() == data@,
            res.pos() == 0,
            res.label() == structure,
            res.wf(),
    {
        Self { data, position: 0, structure }
    }

    /// The current read offset.
    pub fn position(&self) -> (res: usize)
        ensures
            res == self.pos(),
    {
        self.position
    }

    /// Consumes `length` bytes, or fails without moving if they are not there.
    pub fn take(&mut self, length: usize) -> (res: Result<&'a [u8]>)
        requires
            old(self).wf(),
        ensures
            final(self).wf(),
            final(self).bytes() == old(self).bytes(),
            final(self).label() == old(self).label(),
            old(self).pos() + length <= old(self).bytes().len() ==> {
                &&& res is Ok
                &&& res->Ok_0@ == old(self).bytes().subrange(
                    old(self).pos(),
                    old(self).pos() + length,
                )
                &&& final(self).pos() == old(self).pos() + length
            },
            old(self).pos() + length > old(self).bytes().len() ==> {
                &&& res is Err
                &&& res->Err_0.kind() == ErrorKind::OutOfBounds
                &&& final(self).pos() == old(self).pos()
            },
    {
        if length > self.data.len() - self.position {
            let end = if self.position <= usize::MAX - length {
                self.position + length
            } else {
                usize::MAX
            };
            return Err(
                DocError::OutOfBounds {
                    structure: self.structure,
                    offset: self.position,
                    end,
                    available: self.data.len(),
                },
            );
        }
        let end = self.position + length;
        let bytes = &self.data[self.position..end];
        self.position = end;
        Ok(bytes)
    }

    /// Skips `length` bytes.
    pub fn skip(&mut self, length: usize) -> (res: Result<()>)
        requires
            old(self).wf(),
        ensures
            final(self).wf(),
            final(self).bytes() == old(self).bytes(),
            final(self).label() == old(self).label(),
            res is Ok <==> old(self).pos() + length <= old(self).bytes().len(),
            res is Ok ==> final(self).pos() == old(self).pos() + length,
            res is Err ==> res->Err_0.kind() == ErrorKind::OutOfBounds && final(self).pos()
                == old(self).pos(),
    {
        match self.take(length) {
            Ok(_) => Ok(()),
            Err(e) => Err(e),
        }
    }

    /// Reads a little-endian `u16`.
    pub fn read_u16(&mut self) -> (res: Result<u16>)
        requires
            old(self).wf(),
        ensures
            final(self).wf(),
            final(self).bytes() == old(self).bytes(),
            final(self).label() == old(self).label(),
            res is Ok <==> old(self).pos() + 2 <= old(self).bytes().len(),
            res is Ok ==> res->Ok_0 == le_u16(old(self).bytes(), old(self).pos())
                && final(self).pos() == old(self).pos() + 2,
            res is Err ==> res->Err_0.kind() == ErrorKind::OutOfBounds && final(self).pos()
                == old(self).pos(),
    {
        let bytes = self.take(2)?;
        Ok(read_u16_le(bytes, 0))
    }

    /// Reads a little-endian `u32`.
    pub fn read_u32(&mut self) -> (res: Result<u32>)
        requires
            old(self).wf(),
        ensures
            final(self).wf(),
            final(self).bytes() == old(self).bytes(),
            final(self).label() == old(self).label(),
            res is Ok <==> old(self).pos() + 4 <= old(self).bytes().len(),
            res is Ok ==> res->Ok_0 == le_u32(old(self).bytes(), old(self).pos())
                && final(self).pos() == old(self).pos() + 4,
            res is Err ==> res->Err_0.kind() == ErrorKind::OutOfBounds && final(self).pos()
                == old(self).pos(),
    {
        let bytes = self.take(4)?;
        Ok(read_u32_le(bytes, 0))
    }

    /// Reads a little-endian two's-complement `i32`.
    pub fn read_i32(&mut self) -> (res: Result<i32>)
        requires
            old(self).wf(),
        ensures
            final(self).wf(),
            final(self).bytes() == old(self).bytes(),
            final(self).label() == old(self).label(),
            res is Ok <==> old(self).pos() + 4 <= old(self).bytes().len(),
            res is Ok ==> res->Ok_0 == le_i32(old(self).bytes(), old(self).pos())
                && final(self).pos() == old(self).pos() + 4,
            res is Err ==> res->Err_0.kind() == ErrorKind::OutOfBounds && final(self).pos()
                == old(self).pos(),
    {
        let bytes = self.take(4)?;
        Ok(read_i32_le(bytes, 0))
    }
}

/// The bytes `[offset, offset + length)` of `data`, or an out-of-bounds error.
pub fn checked_slice<'a>(data: &'a [u8], offset: u32, length: u32, structure: &'static str) -> (res:
    Result<&'a [u8]>)
    ensures
        offset as int + length as int <= data@.len() ==> res is Ok && res->Ok_0@
            == data@.subrange(offset as int, offset as int + length as int),
        offset as int + length as int > data@.len() ==> res is Err && res->Err_0.kind()
            == ErrorKind::OutOfBounds,
{
    let start = offset as usize;
    let length = length as usize;
    if start > data.len() || length > data.len() - start {
        let end = if start <= usize::MAX - length {
            start + length
        } else {
            usize::MAX
        };
        return Err(DocError::OutOfBounds { structure, offset: start, end, available: data.len() });
    }
    Ok(&data[start..start + length])
}

} // verus!
