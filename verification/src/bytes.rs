//! Little- and big-endian integer decoding over byte buffers.
use vstd::prelude::*;

verus! {

/// Value of the little-endian 16-bit integer stored at `i`.
pub open spec fn le16(s: Seq<u8>, i: int) -> int {
    s[i] + 256 * s[i + 1]
}

/// Value of the little-endian 32-bit integer stored at `i`.
pub open spec fn le32(s: Seq<u8>, i: int) -> int {
    le16(s, i) + 65536 * le16(s, i + 2)
}

/// Value of the little-endian 64-bit integer stored at `i`.
pub open spec fn le64(s: Seq<u8>, i: int) -> int {
    le32(s, i) + 4294967296 * le32(s, i + 4)
}

/// Value of the big-endian 16-bit integer stored at `i`.
pub open spec fn be16(s: Seq<u8>, i: int) -> int {
    256 * s[i] + s[i + 1]
}

/// Value of the big-endian 32-bit integer stored at `i`.
pub open spec fn be32(s: Seq<u8>, i: int) -> int {
    65536 * be16(s, i) + be16(s, i + 2)
}

/// Reads a little-endian `u16` at `offset`.
pub fn read_u16_le(bytes: &[u8], offset: usize) -> (v: u16)
    requires
        offset + 2 <= bytes@.len(),
    ensures
        v == le16(bytes@, offset as int),
{
    bytes[offset] as u16 + (bytes[offset + 1] as u16) * 256
}

/// Reads a little-endian `u32` at `offset`.
pub fn read_u32_le(bytes: &[u8], offset: usize) -> (v: u32)
    requires
        offset + 4 <= bytes@.len(),
    ensures
        v == le32(bytes@, offset as int),
{
    let _n = bytes.len();
    let lo = read_u16_le(bytes, offset) as u32;
    let hi = read_u16_le(bytes, offset + 2) as u32;
    lo + hi * 65536
}

/// Reads a little-endian `u64` at `offset`.
pub fn read_u64_le(bytes: &[u8], offset: usize) -> (v: u64)
    requires
        offset + 8 <= bytes@.len(),
    ensures
        v == le64(bytes@, offset as int),
{
    let _n = bytes.len();
    let lo = read_u32_le(bytes, offset) as u64;
    let hi = read_u32_le(bytes, offset + 4) as u64;
    lo + hi * 4294967296
}

/// Reads a little-endian two's-complement `i64` at `offset`.
pub fn read_i64_le(bytes: &[u8], offset: usize) -> (v: i64)
    requires
        offset + 8 <= bytes@.len(),
    ensures
        v == le64(bytes@, offset as int) as i64,
{
    read_u64_le(bytes, offset) as i64
}

/// Reads a little-endian two's-complement `i32` at `offset`.
pub fn read_i32_le(bytes: &[u8], offset: usize) -> (v: i32)
    requires
        offset + 4 <= bytes@.len(),
    ensures
        v == le32(bytes@, offset as int) as i32,
{
    read_u32_le(bytes, offset) as i32
}

/// Reads a big-endian `u16` at `offset`.
pub fn read_u16_be(bytes: &[u8], offset: usize) -> (v: u16)
    requires
        offset + 2 <= bytes@.len(),
    ensures
        v == be16(bytes@, offset as int),
{
    (bytes[offset] as u16) * 256 + bytes[offset + 1] as u16
}

/// Reads a big-endian `u32` at `offset`.
pub fn read_u32_be(bytes: &[u8], offset: usize) -> (v: u32)
    requires
        offset + 4 <= bytes@.len(),
    ensures
        v == be32(bytes@, offset as int),
{
    let _n = bytes.len();
    let hi = read_u16_be(bytes, offset) as u32;
    let lo = read_u16_be(bytes, offset + 2) as u32;
    hi * 65536 + lo
}

/// Whether `bytes[offset..offset + pattern.len()]` equals `pattern`.
pub fn bytes_match_at(bytes: &[u8], offset: usize, pattern: &[u8]) -> (b: bool)
    requires
        offset + pattern@.len() <= bytes@.len(),
    ensures
        b == (bytes@.subrange(offset as int, offset + pattern@.len()) == pattern@),
{
    let n = bytes.len();
    let mut i: usize = 0;
    while i < pattern.len()
        invariant
            n == bytes@.len(),
            i <= pattern@.len(),
            offset + pattern@.len() <= bytes@.len(),
            forall|k: int| 0 <= k < i ==> bytes@[offset + k] == pattern@[k],
        decreases pattern@.len() - i,
    {
        if bytes[offset + i] != pattern[i] {
            assert(bytes@.subrange(offset as int, offset + pattern@.len())[i as int] != pattern@[i as int]);
            return false;
        }
        i = i + 1;
    }
    assert(bytes@.subrange(offset as int, offset + pattern@.len()) =~= pattern@);
    true
}

/// Whether every byte of `bytes[start..end]` is zero.
pub fn all_zero(bytes: &[u8], start: usize, end: usize) -> (b: bool)
    requires
        start <= end <= bytes@.len(),
    ensures
        b == (forall|k: int| start <= k < end ==> bytes@[k] == 0),
{
    let mut i = start;
    while i < end
        invariant
            start <= i <= end,
            end <= bytes@.len(),
            forall|k: int| start <= k < i ==> bytes@[k] == 0,
        decreases end - i,
    {
        if bytes[i] != 0 {
            return false;
        }
        i = i + 1;
    }
    true
}

/// Whether `n` is a power of two (one, two, four, ...).
pub open spec fn is_pow2(n: nat) -> bool
    decreases n,
{
    if n == 1 {
        true
    } else if n == 0 || n % 2 == 1 {
        false
    } else {
        is_pow2(n / 2)
    }
}

/// Decides whether `n` is a power of two.
pub fn is_power_of_two(n: u64) -> (b: bool)
    ensures
        b == is_pow2(n as nat),
{
    let mut m = n;
    while m > 1 && m % 2 == 0
        invariant
            is_pow2(m as nat) == is_pow2(n as nat),
        decreases m,
    {
        m = m / 2;
    }
    m == 1
}

} // verus!
