//! A byte reader that tracks its position.
//!
//! The reader holds the whole byte source in memory. Its position starts at a
//! chosen offset and grows by the number of bytes read or skipped; it never
//! moves backwards.
use vstd::prelude::*;
use crate::wire::{get_u16, get_u32, get_u64, le_u16, le_u32, le_u64};

verus! {

/// A failure of the byte source.
#[derive(Debug, Clone, Copy, PartialEq, Eq, Structural)]
pub enum IoError {
    /// The source ended before the requested bytes.
    UnexpectedEof,
    /// A skip to a position before the current one was asked for.
    BackwardSkip,
}

/// A reader over an in-memory byte source that tracks its position.
#[derive(Debug, Clone)]
pub struct SeekableReader {
    data: Vec<u8>,
    idx: usize,
    offset: u64,
}

impl SeekableReader {
    /// All bytes of the source.
    pub closed spec fn bytes(&self) -> Seq<u8> {
        self.data@
    }

    /// The number of bytes consumed so far.
    pub closed spec fn consumed(&self) -> nat {
        self.idx as nat
    }

    /// The position at which the reader started.
    pub closed spec fn offset(&self) -> nat {
        self.offset as nat
    }

    /// The current position.
    pub open spec fn pos(&self) -> nat {
        self.offset() + self.consumed()
    }

    /// The bytes not read yet.
    pub open spec fn rest(&self) -> Seq<u8> {
        self.bytes().subrange(self.consumed() as int, self.bytes().len() as int)
    }

    /// The position just past the last byte of the source.
    pub open spec fn end_pos(&self) -> nat {
        self.offset() + self.bytes().len()
    }

    pub open spec fn wf(&self) -> bool {
        &&& self.consumed() <= self.bytes().len()
        &&& self.bytes().len() <= usize::MAX
        &&& self.end_pos() <= u64::MAX
    }

    /// Creates a reader at position 0.
    pub fn new(data: Vec<u8>) -> (r: Self)
        requires
            data@.len() <= u64::MAX,
        ensures
            r.wf(),
            r.bytes() == data@,
            r.offset() == 0,
            r.pos() == 0,
    {
        let _len = data.len();
        SeekableReader { data, idx: 0, offset: 0 }
    }

    /// Creates a reader whose position starts at `offset`.
    pub fn with_offset(data: Vec<u8>, offset: u64) -> (r: Self)
        requires
            offset + data@.len() <= u64::MAX,
        ensures
            r.wf(),
            r.bytes() == data@,
            r.offset() == offset,
            r.pos() == offset,
    {
        let _len = data.len();
        SeekableReader { data, idx: 0, offset }
    }

    /// Gives the byte source back.
    pub fn into_inner(self) -> (r: Vec<u8>)
        ensures
            r@ == self.bytes(),
    {
        self.data
    }

    /// Returns the current position.
    pub fn position(&self) -> (r: u64)
        requires
            self.wf(),
        ensures
            r == self.pos(),
    {
        self.offset + self.idx as u64
    }

    /// Returns the number of bytes not read yet.
    pub fn remaining(&self) -> (r: usize)
        requires
            self.wf(),
        ensures
            r == self.bytes().len() - self.consumed(),
    {
        self.data.len() - self.idx
    }

    /// Moves the position forward by `delta` bytes without reading them.
    pub fn advance(&mut self, delta: u64)
        requires
            old(self).wf(),
            old(self).consumed() + delta <= old(self).bytes().len(),
        ensures
            final(self).wf(),
            final(self).bytes() == old(self).bytes(),
            final(self).offset() == old(self).offset(),
            final(self).pos() == old(self).pos() + delta,
    {
        let _n = self.data.len();
        self.idx = self.idx + delta as usize;
    }

    /// Reads up to `max` bytes; fewer only where the source ends first.
    pub fn read(&mut self, max: usize) -> (r: Vec<u8>)
        requires
            old(self).wf(),
        ensures
            final(self).wf(),
            final(self).bytes() == old(self).bytes(),
            final(self).offset() == old(self).offset(),
            r@.len() == if max <= old(self).rest().len() { max as nat } else { old(self).rest().len() },
            r@ == old(self).rest().subrange(0, r@.len() as int),
            final(self).pos() == old(self).pos() + r@.len(),
    {
        let avail = self.data.len() - self.idx;
        let n = if max <= avail { max } else { avail };
        self.read_exact(n).unwrap()
    }

    /// Reads exactly `n` bytes; the position is unchanged on failure.
    pub fn read_exact(&mut self, n: usize) -> (r: Result<Vec<u8>, IoError>)
        requires
            old(self).wf(),
        ensures
            final(self).wf(),
            final(self).bytes() == old(self).bytes(),
            final(self).offset() == old(self).offset(),
            match r {
                Ok(v) => {
                    &&& n <= old(self).rest().len()
                    &&& v@ == old(self).rest().subrange(0, n as int)
                    &&& final(self).pos() == old(self).pos() + n
                },
                Err(e) => {
                    &&& n > old(self).rest().len()
                    &&& e == IoError::UnexpectedEof
                    &&& final(self).pos() == old(self).pos()
                },
            },
    {
        if n > self.data.len() - self.idx {
            return Err(IoError::UnexpectedEof);
        }
        let mut v: Vec<u8> = Vec::with_capacity(n);
        let mut k: usize = 0;
        while k < n
            invariant
                self.wf(),
                k <= n,
                self.idx + n <= self.data@.len(),
                self.data@.len() <= usize::MAX,
                v@ == self.data@.subrange(self.idx as int, self.idx + k),
            decreases n - k,
        {
            v.push(self.data[self.idx + k]);
            k = k + 1;
            assert(v@ =~= self.data@.subrange(self.idx as int, self.idx + k));
        }
        self.idx = self.idx + n;
        Ok(v)
    }

    /// Reads one byte.
    pub fn read_u8(&mut self) -> (r: Result<u8, IoError>)
        requires
            old(self).wf(),
        ensures
            final(self).wf(),
            final(self).bytes() == old(self).bytes(),
            final(self).offset() == old(self).offset(),
            match r {
                Ok(v) => {
                    &&& 1 <= old(self).rest().len()
                    &&& v == old(self).rest()[0]
                    &&& final(self).pos() == old(self).pos() + 1
                },
                Err(e) => {
                    &&& old(self).rest().len() < 1
                    &&& e == IoError::UnexpectedEof
                    &&& final(self).pos() == old(self).pos()
                },
            },
    {
        if self.idx >= self.data.len() {
            return Err(IoError::UnexpectedEof);
        }
        let v = self.data[self.idx];
        self.idx = self.idx + 1;
        Ok(v)
    }

    /// Reads a little-endian `u16`.
    pub fn read_u16(&mut self) -> (r: Result<u16, IoError>)
        requires
            old(self).wf(),
        ensures
            final(self).wf(),
            final(self).bytes() == old(self).bytes(),
            final(self).offset() == old(self).offset(),
            match r {
                Ok(v) => {
                    &&& 2 <= old(self).rest().len()
                    &&& v as nat == le_u16(old(self).rest(), 0)
                    &&& final(self).pos() == old(self).pos() + 2
                },
                Err(e) => {
                    &&& old(self).rest().len() < 2
                    &&& e == IoError::UnexpectedEof
                    &&& final(self).pos() == old(self).pos()
                },
            },
    {
        if self.data.len() - self.idx < 2 {
            return Err(IoError::UnexpectedEof);
        }
        let v = get_u16(self.data.as_slice(), self.idx);
        self.idx = self.idx + 2;
        Ok(v)
    }

    /// Reads a little-endian `u32`.
    pub fn read_u32(&mut self) -> (r: Result<u32, IoError>)
        requires
            old(self).wf(),
        ensures
            final(self).wf(),
            final(self).bytes() == old(self).bytes(),
            final(self).offset() == old(self).offset(),
            match r {
                Ok(v) => {
                    &&& 4 <= old(self).rest().len()
                    &&& v as nat == le_u32(old(self).rest(), 0)
                    &&& final(self).pos() == old(self).pos() + 4
                },
                Err(e) => {
                    &&& old(self).rest().len() < 4
                    &&& e == IoError::UnexpectedEof
                    &&& final(self).pos() == old(self).pos()
                },
            },
    {
        if self.data.len() - self.idx < 4 {
            return Err(IoError::UnexpectedEof);
        }
        let v = get_u32(self.data.as_slice(), self.idx);
        self.idx = self.idx + 4;
        Ok(v)
    }

    /// Reads a little-endian `u64`.
    pub fn read_u64(&mut self) -> (r: Result<u64, IoError>)
        requires
            old(self).wf(),
        ensures
            final(self).wf(),
            final(self).bytes() == old(self).bytes(),
            final(self).offset() == old(self).offset(),
            match r {
                Ok(v) => {
                    &&& 8 <= old(self).rest().len()
                    &&& v as nat == le_u64(old(self).rest(), 0)
                    &&& final(self).pos() == old(self).pos() + 8
                },
                Err(e) => {
                    &&& old(self).rest().len() < 8
                    &&& e == IoError::UnexpectedEof
                    &&& final(self).pos() == old(self).pos()
                },
            },
    {
        if self.data.len() - self.idx < 8 {
            return Err(IoError::UnexpectedEof);
        }
        let v = get_u64(self.data.as_slice(), self.idx);
        self.idx = self.idx + 8;
        Ok(v)
    }

    /// Skips forward to position `target`.
    pub fn skip_to(&mut self, target: u64) -> (r: Result<(), IoError>)
        requires
            old(self).wf(),
        ensures
            final(self).wf(),
            final(self).bytes() == old(self).bytes(),
            final(self).offset() == old(self).offset(),
            match r {
                Ok(_) => {
                    &&& old(self).pos() <= target <= old(self).end_pos()
                    &&& final(self).pos() == target
                },
                Err(e) => {
                    &&& final(self).pos() == old(self).pos()
                    &&& e == (if target < old(self).pos() {
                        IoError::BackwardSkip
                    } else {
                        IoError::UnexpectedEof
                    })
                    &&& (e == IoError::UnexpectedEof ==> target > old(self).end_pos())
                },
            },
    {
        let pos = self.offset + self.idx as u64;
        if target < pos {
            return Err(IoError::BackwardSkip);
        }
        let distance = target - pos;
        if distance > (self.data.len() - self.idx) as u64 {
            return Err(IoError::UnexpectedEof);
        }
        self.idx = self.idx + distance as usize;
        Ok(())
    }
}

} // verus!
