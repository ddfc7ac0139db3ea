//! A bounded cursor into an image's bytes.
//!
//! A `Ptr` holds a view of the image, a window `[start, end)` of it and a
//! current position.  Positions may run past the window; every access checks
//! the window first.  An access of `size` bytes at the position is allowed
//! only when `start <= pos` and `pos + size < end`: the byte just below `end`
//! is never part of an access.
use vstd::prelude::*;

use crate::bytes::{read_u16, read_u32, u16_at, u32_at};

verus! {

/// Whether an access of `size` bytes at `pos` lies in the window `[start, end)`.
pub open spec fn in_window(start: int, end: int, pos: int, size: int) -> bool {
    start <= pos && pos + size < end
}

#[derive(Clone, Copy)]
pub struct Ptr<'a> {
    pub data: &'a [u8],
    pub start: usize,
    pub end: usize,
    pub ptr: u64,
}

impl<'a> Ptr<'a> {
    pub open spec fn bytes(&self) -> Seq<u8> {
        self.data@
    }

    pub open spec fn spec_start(&self) -> int {
        self.start as int
    }

    pub open spec fn spec_end(&self) -> int {
        self.end as int
    }

    pub open spec fn pos(&self) -> int {
        self.ptr as int
    }

    /// The window lies inside the bytes and the position is not below the window.
    pub open spec fn wf(&self) -> bool {
        &&& self.start <= self.end
        &&& self.end <= self.data@.len()
        &&& self.start <= self.ptr
    }

    /// Whether an access of `size` bytes at the position is allowed.
    pub open spec fn valid_for(&self, size: int) -> bool {
        in_window(self.spec_start(), self.spec_end(), self.pos(), size)
    }

    /// A cursor over the whole of `data`, at its first byte.
    pub fn from_slice(data: &'a [u8]) -> (r: Ptr<'a>)
        ensures
            r.wf(),
            r.bytes() == data@,
            r.spec_start() == 0,
            r.spec_end() == data@.len(),
            r.pos() == 0,
    {
        Ptr { data, start: 0, end: data.len(), ptr: 0 }
    }

    /// A cursor over the window `[start, end)` of `data`, at `start`.
    pub fn new(data: &'a [u8], start: usize, end: usize) -> (r: Ptr<'a>)
        requires
            start <= end <= data@.len(),
        ensures
            r.wf(),
            r.bytes() == data@,
            r.spec_start() == start,
            r.spec_end() == end,
            r.pos() == start,
    {
        Ptr { data, start, end, ptr: start as u64 }
    }

    pub fn start(&self) -> (r: usize)
        ensures
            r == self.spec_start(),
    {
        self.start
    }

    pub fn end(&self) -> (r: usize)
        ensures
            r == self.spec_end(),
    {
        self.end
    }

    pub fn ptr(&self) -> (r: u64)
        ensures
            r == self.pos(),
    {
        self.ptr
    }

    /// Whether `size` bytes at the position may be accessed.
    pub fn is_valid_for(&self, size: u64) -> (r: bool)
        requires
            self.wf(),
        ensures
            r == self.valid_for(size as int),
    {
        self.start as u64 <= self.ptr && self.ptr < self.end as u64 && size < self.end as u64 - self.ptr
    }

    /// Whether `size` bytes starting `k` bytes past the position may be accessed.
    pub fn is_valid_at(&self, k: u64, size: u64) -> (r: bool)
        requires
            self.wf(),
        ensures
            r == in_window(self.spec_start(), self.spec_end(), self.pos() + k, size as int),
    {
        self.ptr < self.end as u64 && k < self.end as u64 - self.ptr && size < self.end as u64
            - self.ptr - k
    }

    /// Whether the byte at the position may be read.
    pub fn is_valid(&self) -> (r: bool)
        requires
            self.wf(),
        ensures
            r == self.valid_for(1),
    {
        self.is_valid_for(1)
    }

    /// The same window, `count` bytes further on.
    pub fn byte_add(self, count: u64) -> (r: Ptr<'a>)
        requires
            self.wf(),
            self.pos() + count <= u64::MAX,
        ensures
            r.wf(),
            r.bytes() == self.bytes(),
            r.spec_start() == self.spec_start(),
            r.spec_end() == self.spec_end(),
            r.pos() == self.pos() + count,
    {
        Ptr { data: self.data, start: self.start, end: self.end, ptr: self.ptr + count }
    }

    /// Ends the window `len` bytes after the position, unless that would widen it.
    pub fn truncate(self, len: u64) -> (r: Ptr<'a>)
        requires
            self.wf(),
            self.pos() + len <= u64::MAX,
        ensures
            r.wf(),
            r.bytes() == self.bytes(),
            r.spec_start() == self.spec_start(),
            r.pos() == self.pos(),
            r.spec_end() == if self.pos() + len > self.spec_end() {
                self.spec_end()
            } else {
                self.pos() + len
            },
    {
        let new_end = self.ptr + len;
        if new_end > self.end as u64 {
            return self;
        }
        Ptr { data: self.data, start: self.start, end: new_end as usize, ptr: self.ptr }
    }

    /// The byte `k` bytes past the position; the caller has checked the window.
    pub fn byte_at(&self, k: u64) -> (r: u8)
        requires
            self.wf(),
            self.valid_for(k + 1),
        ensures
            r == self.bytes()[self.pos() + k],
    {
        self.data[(self.ptr + k) as usize]
    }

    /// The byte at the position, where the window allows it.
    pub fn read_u8(&self) -> (r: Option<u8>)
        requires
            self.wf(),
        ensures
            r == if self.valid_for(1) {
                Some(self.bytes()[self.pos()])
            } else {
                None::<u8>
            },
    {
        if self.is_valid_for(1) {
            Some(self.data[self.ptr as usize])
        } else {
            None
        }
    }

    /// The little-endian `u16` at the position, where the window allows it.
    pub fn read_u16(&self) -> (r: Option<u16>)
        requires
            self.wf(),
        ensures
            r == if self.valid_for(2) {
                Some(u16_at(self.bytes(), self.pos()))
            } else {
                None::<u16>
            },
    {
        if self.is_valid_for(2) {
            let o: usize = self.ptr as usize;
            assert(o == self.ptr);
            Some(read_u16(self.data, o))
        } else {
            None
        }
    }

    /// The little-endian `u32` at the position, where the window allows it.
    pub fn read_u32(&self) -> (r: Option<u32>)
        requires
            self.wf(),
        ensures
            r == if self.valid_for(4) {
                Some(u32_at(self.bytes(), self.pos()))
            } else {
                None::<u32>
            },
    {
        if self.is_valid_for(4) {
            let o: usize = self.ptr as usize;
            assert(o == self.ptr);
            Some(read_u32(self.data, o))
        } else {
            None
        }
    }

    /// The little-endian `u16` `k` bytes past the position; the caller has checked the window.
    pub fn u16_at(&self, k: u64) -> (r: u16)
        requires
            self.wf(),
            self.valid_for(k + 2),
        ensures
            r == u16_at(self.bytes(), self.pos() + k),
    {
        let o: usize = (self.ptr + k) as usize;
        assert(o == self.ptr + k);
        read_u16(self.data, o)
    }

    /// The little-endian `u32` `k` bytes past the position; the caller has checked the window.
    pub fn u32_at(&self, k: u64) -> (r: u32)
        requires
            self.wf(),
            self.valid_for(k + 4),
        ensures
            r == u32_at(self.bytes(), self.pos() + k),
    {
        let o: usize = (self.ptr + k) as usize;
        assert(o == self.ptr + k);
        read_u32(self.data, o)
    }
}

} // verus!
