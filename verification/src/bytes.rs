//! Bounds-checked little-endian reads from an untrusted byte buffer.
//!
//! Every multi-byte field of the image headers is read through this module, so
//! the question "are there enough bytes left?" is asked in exactly one place.

use vstd::prelude::*;

verus! {

/// The unsigned value of the two bytes at `at`, least significant byte first.
pub open spec fn le_u16(bytes: Seq<u8>, at: int) -> int {
    bytes[at] as int + 0x100 * (bytes[at + 1] as int)
}

/// The unsigned value of the four bytes at `at`, least significant byte first.
pub open spec fn le_u32(bytes: Seq<u8>, at: int) -> int {
    le_u16(bytes, at) + 0x1_0000 * le_u16(bytes, at + 2)
}

/// The unsigned value of the eight bytes at `at`, least significant byte first.
pub open spec fn le_u64(bytes: Seq<u8>, at: int) -> int {
    le_u32(bytes, at) + 0x1_0000_0000 * le_u32(bytes, at + 4)
}

/// Whether a field of `width` bytes starting at `at` lies wholly inside a
/// buffer of `len` bytes.
pub open spec fn fits(len: int, at: int, width: int) -> bool {
    0 <= at && 0 <= width && at + width <= len
}

/// The bounds check behind every read: true exactly when `width` bytes are
/// available at `at`. Never overflows, whatever `at` and `width` are.
pub fn has_bytes(buffer: &[u8], at: usize, width: usize) -> (r: bool)
    ensures
        r == fits(buffer@.len() as int, at as int, width as int),
        buffer@.len() <= usize::MAX,
{
    at <= buffer.len() && buffer.len() - at >= width
}

/// Reads one byte, or nothing when `at` is past the end.
pub fn read_u8(buffer: &[u8], at: usize) -> (r: Option<u8>)
    ensures
        r == if at < buffer@.len() {
            Some(buffer@[at as int])
        } else {
            None
        },
{
    if has_bytes(buffer, at, 1) {
        Some(buffer[at])
    } else {
        None
    }
}

/// Reads a 16-bit little-endian field, or nothing when it would cross the end.
pub fn read_u16_le(buffer: &[u8], at: usize) -> (r: Option<u16>)
    ensures
        r is Some <==> fits(buffer@.len() as int, at as int, 2),
        r matches Some(v) ==> v == le_u16(buffer@, at as int),
{
    if !has_bytes(buffer, at, 2) {
        return None;
    }
    let low: u16 = buffer[at] as u16;
    let high: u16 = buffer[at + 1] as u16;
    Some(low + high * 0x100)
}

/// Reads a 32-bit little-endian field, or nothing when it would cross the end.
pub fn read_u32_le(buffer: &[u8], at: usize) -> (r: Option<u32>)
    ensures
        r is Some <==> fits(buffer@.len() as int, at as int, 4),
        r matches Some(v) ==> v == le_u32(buffer@, at as int),
{
    if !has_bytes(buffer, at, 4) {
        return None;
    }
    let low: u32 = read_u16_le(buffer, at).unwrap() as u32;
    let high: u32 = read_u16_le(buffer, at + 2).unwrap() as u32;
    Some(low + high * 0x1_0000)
}

/// Reads a 64-bit little-endian field, or nothing when it would cross the end.
pub fn read_u64_le(buffer: &[u8], at: usize) -> (r: Option<u64>)
    ensures
        r is Some <==> fits(buffer@.len() as int, at as int, 8),
        r matches Some(v) ==> v == le_u64(buffer@, at as int),
{
    if !has_bytes(buffer, at, 8) {
        return None;
    }
    let low: u64 = read_u32_le(buffer, at).unwrap() as u64;
    let high: u64 = read_u32_le(buffer, at + 4).unwrap() as u64;
    Some(low + high * 0x1_0000_0000)
}

/// Little-endian fields stay within the range of their width.
pub proof fn lemma_le_ranges(bytes: Seq<u8>, at: int)
    ensures
        0 <= le_u16(bytes, at) <= 0xFFFF,
        0 <= le_u32(bytes, at) <= 0xFFFF_FFFF,
        0 <= le_u64(bytes, at) <= 0xFFFF_FFFF_FFFF_FFFF,
{
}

} // verus!
