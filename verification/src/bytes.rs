//! Little-endian integers inside account data.

use vstd::prelude::*;

verus! {

/// The 32-bit little-endian integer held by the four bytes of `s` that start at `at`.
pub open spec fn le_u32(s: Seq<u8>, at: int) -> int {
    s[at] as int + s[at + 1] as int * 0x100 + s[at + 2] as int * 0x1_0000 + s[at + 3] as int
        * 0x100_0000
}

/// The 64-bit little-endian integer held by the eight bytes of `s` that start at `at`.
pub open spec fn le_u64(s: Seq<u8>, at: int) -> int {
    le_u32(s, at) + le_u32(s, at + 4) * 0x1_0000_0000
}

/// The 128-bit little-endian integer held by the sixteen bytes of `s` that start at `at`.
pub open spec fn le_u128(s: Seq<u8>, at: int) -> int {
    le_u64(s, at) + le_u64(s, at + 8) * 0x1_0000_0000_0000_0000
}

/// The `index`-th byte, counted from the least significant, of the integer `x`.
pub open spec fn byte_of(x: int, index: int) -> int
    decreases index,
{
    if index <= 0 {
        x % 256
    } else {
        byte_of(x / 256, index - 1)
    }
}

/// Reads the 32-bit little-endian integer at `at`.
pub fn read_u32(data: &[u8], at: usize) -> (r: u32)
    requires
        at + 4 <= data.len(),
    ensures
        r == le_u32(data@, at as int),
{
    let b0: u32 = data[at] as u32;
    let b1: u32 = data[at + 1] as u32;
    let b2: u32 = data[at + 2] as u32;
    let b3: u32 = data[at + 3] as u32;
    b0 + b1 * 0x100 + b2 * 0x1_0000 + b3 * 0x100_0000
}

/// Reads the 64-bit little-endian integer at `at`.
pub fn read_u64(data: &[u8], at: usize) -> (r: u64)
    requires
        at + 8 <= data.len(),
    ensures
        r == le_u64(data@, at as int),
{
    let lo: u64 = read_u32(data, at) as u64;
    let hi: u64 = read_u32(data, at + 4) as u64;
    lo + hi * 0x1_0000_0000
}

/// Reads the 128-bit little-endian integer at `at`.
pub fn read_u128(data: &[u8], at: usize) -> (r: u128)
    requires
        at + 16 <= data.len(),
    ensures
        r == le_u128(data@, at as int),
{
    let lo: u128 = read_u64(data, at) as u128;
    let hi: u128 = read_u64(data, at + 8) as u128;
    lo + hi * 0x1_0000_0000_0000_0000
}

/// Reads four consecutive 64-bit little-endian words starting at `at`.
pub fn read_words4(data: &[u8], at: usize) -> (r: [u64; 4])
    requires
        at + 32 <= data.len(),
    ensures
        forall|k: int| 0 <= k < 4 ==> r@[k] == le_u64(data@, at + 8 * k),
{
    [read_u64(data, at), read_u64(data, at + 8), read_u64(data, at + 16), read_u64(data, at + 24)]
}

} // verus!
