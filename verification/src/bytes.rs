//! Little-endian field access on byte sequences.
use vstd::prelude::*;

verus! {

/// The little-endian `u16` stored at offset `o`.
pub open spec fn u16_at(d: Seq<u8>, o: int) -> u16 {
    (d[o] as int + d[o + 1] as int * 0x100) as u16
}

/// The little-endian `u32` stored at offset `o`.
pub open spec fn u32_at(d: Seq<u8>, o: int) -> u32 {
    (d[o] as int + d[o + 1] as int * 0x100 + d[o + 2] as int * 0x1_0000 + d[o + 3] as int
        * 0x100_0000) as u32
}

/// The little-endian two's complement `i32` stored at offset `o`, as an integer.
pub open spec fn i32_at(d: Seq<u8>, o: int) -> int {
    let u = u32_at(d, o) as int;
    if u >= 0x8000_0000 {
        u - 0x1_0000_0000
    } else {
        u
    }
}

/// Reads the little-endian `u16` at offset `o`.
pub fn read_u16(d: &[u8], o: usize) -> (r: u16)
    requires
        o + 2 <= d@.len(),
    ensures
        r == u16_at(d@, o as int),
{
    d[o] as u16 + (d[o + 1] as u16) * 0x100
}

/// Reads the little-endian `u32` at offset `o`.
pub fn read_u32(d: &[u8], o: usize) -> (r: u32)
    requires
        o + 4 <= d@.len(),
    ensures
        r == u32_at(d@, o as int),
{
    d[o] as u32 + (d[o + 1] as u32) * 0x100 + (d[o + 2] as u32) * 0x1_0000 + (d[o + 3] as u32)
        * 0x100_0000
}

/// Reads the little-endian `i32` at offset `o`.
pub fn read_i32(d: &[u8], o: usize) -> (r: i32)
    requires
        o + 4 <= d@.len(),
    ensures
        r as int == i32_at(d@, o as int),
{
    let u = read_u32(d, o);
    if u >= 0x8000_0000 {
        let m: u32 = u - 0x8000_0000;
        let k: i32 = m as i32;
        k - 0x4000_0000 - 0x4000_0000
    } else {
        u as i32
    }
}

} // verus!
