//! Little-endian integer reads and two's-complement reinterpretation.
//!
//! All multi-byte integers of the format are stored little-endian. Signed
//! values are the two's-complement reading of the unsigned bit pattern.

use vstd::prelude::*;

verus! {

use vstd::bytes::{spec_u16_from_le_bytes, spec_u32_from_le_bytes, spec_u64_from_le_bytes,
    u16_from_le_bytes, u32_from_le_bytes, u64_from_le_bytes};
use vstd::slice::slice_subrange;

/// Two's-complement reading of an 8-bit unsigned value.
pub open spec fn signed8(n: u8) -> int {
    if n < 0x80 {
        n as int
    } else {
        n - 0x100
    }
}

/// Two's-complement reading of a 16-bit unsigned value.
pub open spec fn signed16(n: u16) -> int {
    if n < 0x8000 {
        n as int
    } else {
        n - 0x1_0000
    }
}

/// Two's-complement reading of a 32-bit unsigned value.
pub open spec fn signed32(n: u32) -> int {
    if n < 0x8000_0000 {
        n as int
    } else {
        n - 0x1_0000_0000
    }
}

/// Two's-complement reading of a 64-bit unsigned value.
pub open spec fn signed64(n: u64) -> int {
    if n < 0x8000_0000_0000_0000 {
        n as int
    } else {
        n - 0x1_0000_0000_0000_0000
    }
}

/// The signed 8-bit value stored in the one byte of `s`.
pub open spec fn spec_i8_le(s: Seq<u8>) -> int
    recommends
        s.len() == 1,
{
    signed8(s[0])
}

/// The signed 16-bit value stored little-endian in the two bytes of `s`.
pub open spec fn spec_i16_le(s: Seq<u8>) -> int
    recommends
        s.len() == 2,
{
    signed16(spec_u16_from_le_bytes(s))
}

/// The signed 32-bit value stored little-endian in the four bytes of `s`.
pub open spec fn spec_i32_le(s: Seq<u8>) -> int
    recommends
        s.len() == 4,
{
    signed32(spec_u32_from_le_bytes(s))
}

/// The signed 64-bit value stored little-endian in the eight bytes of `s`.
pub open spec fn spec_i64_le(s: Seq<u8>) -> int
    recommends
        s.len() == 8,
{
    signed64(spec_u64_from_le_bytes(s))
}

/// Reinterprets an unsigned 8-bit value as two's-complement signed.
pub fn u8_as_signed(n: u8) -> (r: i8)
    ensures
        r as int == signed8(n),
{
    if n < 0x80 {
        n as i8
    } else {
        let d: u8 = n - 0x80;
        i8::MIN + d as i8
    }
}

/// Reinterprets an unsigned 16-bit value as two's-complement signed.
pub fn u16_as_signed(n: u16) -> (r: i16)
    ensures
        r as int == signed16(n),
{
    if n < 0x8000 {
        n as i16
    } else {
        let d: u16 = n - 0x8000;
        i16::MIN + d as i16
    }
}

/// Reinterprets an unsigned 32-bit value as two's-complement signed.
pub fn u32_as_signed(n: u32) -> (r: i32)
    ensures
        r as int == signed32(n),
{
    if n < 0x8000_0000 {
        n as i32
    } else {
        let d: u32 = n - 0x8000_0000;
        i32::MIN + d as i32
    }
}

/// Reinterprets an unsigned 64-bit value as two's-complement signed.
pub fn u64_as_signed(n: u64) -> (r: i64)
    ensures
        r as int == signed64(n),
{
    if n < 0x8000_0000_0000_0000 {
        n as i64
    } else {
        let d: u64 = n - 0x8000_0000_0000_0000;
        i64::MIN + d as i64
    }
}

/// Reads the byte at position `pos`.
pub fn read_u8(buf: &Vec<u8>, pos: usize) -> (r: u8)
    requires
        pos + 1 <= buf@.len(),
    ensures
        r == buf@[pos as int],
{
    buf[pos]
}

/// Reads the signed 8-bit value at byte position `pos`.
pub fn read_i8(buf: &Vec<u8>, pos: usize) -> (r: i8)
    requires
        pos + 1 <= buf@.len(),
    ensures
        r as int == spec_i8_le(buf@.subrange(pos as int, pos as int + 1)),
{
    u8_as_signed(buf[pos])
}

/// Reads the unsigned 16-bit little-endian value at byte position `pos`.
pub fn read_u16_le(buf: &Vec<u8>, pos: usize) -> (r: u16)
    requires
        pos + 2 <= buf@.len(),
    ensures
        r == spec_u16_from_le_bytes(buf@.subrange(pos as int, pos as int + 2)),
{
    let n = buf.len();
    let s = slice_subrange(buf.as_slice(), pos, pos + 2);
    u16_from_le_bytes(s)
}

/// Reads the signed 16-bit little-endian value at byte position `pos`.
pub fn read_i16_le(buf: &Vec<u8>, pos: usize) -> (r: i16)
    requires
        pos + 2 <= buf@.len(),
    ensures
        r as int == spec_i16_le(buf@.subrange(pos as int, pos as int + 2)),
{
    let u = read_u16_le(buf, pos);
    u16_as_signed(u)
}

/// Reads the unsigned 32-bit little-endian value at byte position `pos`.
pub fn read_u32_le(buf: &Vec<u8>, pos: usize) -> (r: u32)
    requires
        pos + 4 <= buf@.len(),
    ensures
        r == spec_u32_from_le_bytes(buf@.subrange(pos as int, pos as int + 4)),
{
    let n = buf.len();
    let s = slice_subrange(buf.as_slice(), pos, pos + 4);
    u32_from_le_bytes(s)
}

/// Reads the signed 32-bit little-endian value at byte position `pos`.
pub fn read_i32_le(buf: &Vec<u8>, pos: usize) -> (r: i32)
    requires
        pos + 4 <= buf@.len(),
    ensures
        r as int == spec_i32_le(buf@.subrange(pos as int, pos as int + 4)),
{
    let u = read_u32_le(buf, pos);
    u32_as_signed(u)
}

/// Reads the unsigned 64-bit little-endian value at byte position `pos`.
pub fn read_u64_le(buf: &Vec<u8>, pos: usize) -> (r: u64)
    requires
        pos + 8 <= buf@.len(),
    ensures
        r == spec_u64_from_le_bytes(buf@.subrange(pos as int, pos as int + 8)),
{
    let n = buf.len();
    let s = slice_subrange(buf.as_slice(), pos, pos + 8);
    u64_from_le_bytes(s)
}

/// Reads the signed 64-bit little-endian value at byte position `pos`.
pub fn read_i64_le(buf: &Vec<u8>, pos: usize) -> (r: i64)
    requires
        pos + 8 <= buf@.len(),
    ensures
        r as int == spec_i64_le(buf@.subrange(pos as int, pos as int + 8)),
{
    let n = buf.len();
    let s = slice_subrange(buf.as_slice(), pos, pos + 8);
    let u = u64_from_le_bytes(s);
    u64_as_signed(u)
}

} // verus!
