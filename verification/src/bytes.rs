//! Little- and big-endian integer fields read out of byte buffers.

use vstd::prelude::*;

verus! {

/// The unsigned little-endian 16-bit value stored at `s[i..i + 2]`.
pub open spec fn le16(s: Seq<u8>, i: int) -> int {
    s[i] + s[i + 1] * 0x100
}

/// The unsigned little-endian 32-bit value stored at `s[i..i + 4]`.
pub open spec fn le32(s: Seq<u8>, i: int) -> int {
    le16(s, i) + le16(s, i + 2) * 0x1_0000
}

/// The unsigned little-endian 64-bit value stored at `s[i..i + 8]`.
pub open spec fn le64(s: Seq<u8>, i: int) -> int {
    le32(s, i) + le32(s, i + 4) * 0x1_0000_0000
}

/// The two's-complement little-endian 32-bit value stored at `s[i..i + 4]`.
pub open spec fn le_i32(s: Seq<u8>, i: int) -> int {
    let u = le32(s, i);
    if u >= 0x8000_0000 {
        u - 0x1_0000_0000
    } else {
        u
    }
}

/// The unsigned big-endian 32-bit value stored at `s[i..i + 4]`.
pub open spec fn be32(s: Seq<u8>, i: int) -> int {
    s[i] * 0x100_0000 + s[i + 1] * 0x1_0000 + s[i + 2] * 0x100 + s[i + 3]
}

/// The unsigned big-endian 16-bit value stored at `s[i..i + 2]`.
pub open spec fn be16(s: Seq<u8>, i: int) -> int {
    s[i] * 0x100 + s[i + 1]
}

pub fn read_u16_le(b: &[u8], i: usize) -> (r: u16)
    requires
        i + 2 <= b@.len(),
    ensures
        r == le16(b@, i as int),
{
    (b[i] as u16) + (b[i + 1] as u16) * 0x100
}

pub fn read_u16_be(b: &[u8], i: usize) -> (r: u16)
    requires
        i + 2 <= b@.len(),
    ensures
        r == be16(b@, i as int),
{
    (b[i] as u16) * 0x100 + (b[i + 1] as u16)
}

pub fn read_u32_le(b: &[u8], i: usize) -> (r: u32)
    requires
        i + 4 <= b@.len(),
    ensures
        r == le32(b@, i as int),
{
    let _len = b.len();
    let lo = read_u16_le(b, i) as u32;
    let hi = read_u16_le(b, i + 2) as u32;
    lo + hi * 0x1_0000
}

pub fn read_u32_be(b: &[u8], i: usize) -> (r: u32)
    requires
        i + 4 <= b@.len(),
    ensures
        r == be32(b@, i as int),
{
    (b[i] as u32) * 0x100_0000 + (b[i + 1] as u32) * 0x1_0000 + (b[i + 2] as u32) * 0x100 + (b[i
        + 3] as u32)
}

pub fn read_u64_le(b: &[u8], i: usize) -> (r: u64)
    requires
        i + 8 <= b@.len(),
    ensures
        r == le64(b@, i as int),
{
    let _len = b.len();
    let lo = read_u32_le(b, i) as u64;
    let hi = read_u32_le(b, i + 4) as u64;
    lo + hi * 0x1_0000_0000
}

pub fn read_i32_le(b: &[u8], i: usize) -> (r: i32)
    requires
        i + 4 <= b@.len(),
    ensures
        r == le_i32(b@, i as int),
{
    let u = read_u32_le(b, i);
    if u >= 0x8000_0000 {
        -((0xFFFF_FFFFu32 - u) as i32) - 1
    } else {
        u as i32
    }
}

} // verus!
