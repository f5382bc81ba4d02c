//! Big-endian integer fields of the container format, as mathematical
//! functions of the byte sequence they are read from.

use vstd::prelude::*;

verus! {

/// The value of the four bytes `s[off .. off+4]` read as a big-endian u32.
pub open spec fn be_u32_of(s: Seq<u8>, off: int) -> int {
    s[off] * 0x1000000 + s[off + 1] * 0x10000 + s[off + 2] * 0x100 + s[off + 3]
}

/// The value of the eight bytes `s[off .. off+8]` read as a big-endian u64.
pub open spec fn be_u64_of(s: Seq<u8>, off: int) -> int {
    ((((((s[off] * 0x100 + s[off + 1]) * 0x100 + s[off + 2]) * 0x100 + s[off + 3]) * 0x100
        + s[off + 4]) * 0x100 + s[off + 5]) * 0x100 + s[off + 6]) * 0x100 + s[off + 7]
}

/// Reads the big-endian u32 at `data[off .. off+4]`.
pub fn read_be_u32(data: &[u8], off: usize) -> (r: u32)
    requires
        off + 4 <= data@.len(),
    ensures
        r == be_u32_of(data@, off as int),
{
    let b0 = data[off] as u32;
    let b1 = data[off + 1] as u32;
    let b2 = data[off + 2] as u32;
    let b3 = data[off + 3] as u32;
    b0 * 0x1000000 + b1 * 0x10000 + b2 * 0x100 + b3
}

/// Reads the big-endian u64 at `data[off .. off+8]`.
pub fn read_be_u64(data: &[u8], off: usize) -> (r: u64)
    requires
        off + 8 <= data@.len(),
    ensures
        r == be_u64_of(data@, off as int),
{
    let mut r: u64 = data[off] as u64;
    r = r * 0x100 + data[off + 1] as u64;
    r = r * 0x100 + data[off + 2] as u64;
    r = r * 0x100 + data[off + 3] as u64;
    r = r * 0x100 + data[off + 4] as u64;
    r = r * 0x100 + data[off + 5] as u64;
    r = r * 0x100 + data[off + 6] as u64;
    r = r * 0x100 + data[off + 7] as u64;
    r
}

} // verus!
