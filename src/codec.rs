use vstd::prelude::*;

use crate::errors::FormatError;

verus! {

/// Byte order of a TIFF resource, fixed by its first two bytes.
#[derive(Clone, Copy, Debug, PartialEq, Eq, Structural)]
pub enum ByteOrder {
    LittleEndian,
    BigEndian,
}

/// The unsigned value of two bytes, given in resource order.
pub open spec fn spec_u16(order: ByteOrder, b0: u8, b1: u8) -> u16 {
    match order {
        ByteOrder::LittleEndian => (b0 as int + 256 * b1 as int) as u16,
        ByteOrder::BigEndian => (b1 as int + 256 * b0 as int) as u16,
    }
}

/// The unsigned value of four bytes, given in resource order.
pub open spec fn spec_u32(order: ByteOrder, b0: u8, b1: u8, b2: u8, b3: u8) -> u32 {
    match order {
        ByteOrder::LittleEndian => (b0 as int + 0x100 * b1 as int + 0x10000 * b2 as int
            + 0x1000000 * b3 as int) as u32,
        ByteOrder::BigEndian => (b3 as int + 0x100 * b2 as int + 0x10000 * b1 as int
            + 0x1000000 * b0 as int) as u32,
    }
}

/// The `u16` stored at `pos` of `s`.
pub open spec fn u16_at(order: ByteOrder, s: Seq<u8>, pos: int) -> u16 {
    spec_u16(order, s[pos], s[pos + 1])
}

/// The `u32` stored at `pos` of `s`.
pub open spec fn u32_at(order: ByteOrder, s: Seq<u8>, pos: int) -> u32 {
    spec_u32(order, s[pos], s[pos + 1], s[pos + 2], s[pos + 3])
}

/// The `u64` stored at `pos` of `s`: two `u32` halves, the low one first in little-endian.
pub open spec fn u64_at(order: ByteOrder, s: Seq<u8>, pos: int) -> u64 {
    match order {
        ByteOrder::LittleEndian => (u32_at(order, s, pos) as int + 0x1_0000_0000 * u32_at(
            order,
            s,
            pos + 4,
        ) as int) as u64,
        ByteOrder::BigEndian => (u32_at(order, s, pos + 4) as int + 0x1_0000_0000 * u32_at(
            order,
            s,
            pos,
        ) as int) as u64,
    }
}

/// The two bytes that store `v` under `order`.
pub open spec fn encode_u16(order: ByteOrder, v: u16) -> Seq<u8> {
    let lo = (v % 0x100) as u8;
    let hi = (v / 0x100) as u8;
    match order {
        ByteOrder::LittleEndian => seq![lo, hi],
        ByteOrder::BigEndian => seq![hi, lo],
    }
}

/// The four bytes that store `v` under `order`.
pub open spec fn encode_u32(order: ByteOrder, v: u32) -> Seq<u8> {
    let b0 = (v % 0x100) as u8;
    let b1 = (v / 0x100 % 0x100) as u8;
    let b2 = (v / 0x10000 % 0x100) as u8;
    let b3 = (v / 0x1000000) as u8;
    match order {
        ByteOrder::LittleEndian => seq![b0, b1, b2, b3],
        ByteOrder::BigEndian => seq![b3, b2, b1, b0],
    }
}

/// Round trip: a value stored under either byte order reads back as itself, wherever it
/// stands in the buffer.
pub proof fn lemma_round_trip(order: ByteOrder, v16: u16, v32: u32, prefix: Seq<u8>, suffix: Seq<u8>)
    ensures
        u16_at(order, prefix + encode_u16(order, v16) + suffix, prefix.len() as int) == v16,
        u32_at(order, prefix + encode_u32(order, v32) + suffix, prefix.len() as int) == v32,
{
    let s16 = prefix + encode_u16(order, v16) + suffix;
    let s32 = prefix + encode_u32(order, v32) + suffix;
    let p = prefix.len() as int;
    assert(s16[p] == encode_u16(order, v16)[0] && s16[p + 1] == encode_u16(order, v16)[1]);
    assert(s32[p] == encode_u32(order, v32)[0] && s32[p + 1] == encode_u32(order, v32)[1]);
    assert(s32[p + 2] == encode_u32(order, v32)[2] && s32[p + 3] == encode_u32(order, v32)[3]);
    let x = v32 as int;
    assert(x % 0x100 + 0x100 * (x / 0x100 % 0x100) + 0x10000 * (x / 0x10000 % 0x100) + 0x1000000
        * (x / 0x1000000) == x) by (nonlinear_arith)
        requires
            0 <= x < 0x1_0000_0000,
    ;
    assert((v16 as int) % 0x100 + 0x100 * ((v16 as int) / 0x100) == v16 as int);
}

/// The error for a read of `width` bytes at `pos` of a slice of `len` bytes, if it does not fit.
pub open spec fn truncated(len: int, pos: int, width: int) -> FormatError {
    FormatError::Truncated {
        needed: width as u64,
        available: if pos <= len { (len - pos) as u64 } else { 0 },
    }
}

fn truncated_error(len: usize, pos: usize, width: u64) -> (r: FormatError)
    ensures
        r == truncated(len as int, pos as int, width as int),
{
    let available: u64 = if pos <= len {
        (len - pos) as u64
    } else {
        0
    };
    FormatError::Truncated { needed: width, available }
}

/// Combines two bytes in resource order.
pub fn combine_u16(order: ByteOrder, b0: u8, b1: u8) -> (r: u16)
    ensures
        r == spec_u16(order, b0, b1),
{
    match order {
        ByteOrder::LittleEndian => b0 as u16 + (b1 as u16) * 256,
        ByteOrder::BigEndian => b1 as u16 + (b0 as u16) * 256,
    }
}

/// Combines four bytes in resource order.
pub fn combine_u32(order: ByteOrder, b0: u8, b1: u8, b2: u8, b3: u8) -> (r: u32)
    ensures
        r == spec_u32(order, b0, b1, b2, b3),
{
    match order {
        ByteOrder::LittleEndian => b0 as u32 + (b1 as u32) * 0x100 + (b2 as u32) * 0x10000 + (
        b3 as u32) * 0x1000000,
        ByteOrder::BigEndian => b3 as u32 + (b2 as u32) * 0x100 + (b1 as u32) * 0x10000 + (
        b0 as u32) * 0x1000000,
    }
}

/// Reads a `u16` at `pos`; on success also returns the position after it.
pub fn read_u16(buf: &[u8], pos: usize, order: ByteOrder) -> (r: Result<(u16, usize), FormatError>)
    ensures
        pos + 2 <= buf@.len() ==> r == Ok::<(u16, usize), FormatError>(
            (u16_at(order, buf@, pos as int), (pos + 2) as usize),
        ),
        pos + 2 > buf@.len() ==> r == Err::<(u16, usize), FormatError>(
            truncated(buf@.len() as int, pos as int, 2),
        ),
{
    if pos > buf.len() || buf.len() - pos < 2 {
        return Err(truncated_error(buf.len(), pos, 2));
    }
    Ok((combine_u16(order, buf[pos], buf[pos + 1]), pos + 2))
}

/// Reads a `u32` at `pos`; on success also returns the position after it.
pub fn read_u32(buf: &[u8], pos: usize, order: ByteOrder) -> (r: Result<(u32, usize), FormatError>)
    ensures
        pos + 4 <= buf@.len() ==> r == Ok::<(u32, usize), FormatError>(
            (u32_at(order, buf@, pos as int), (pos + 4) as usize),
        ),
        pos + 4 > buf@.len() ==> r == Err::<(u32, usize), FormatError>(
            truncated(buf@.len() as int, pos as int, 4),
        ),
{
    if pos > buf.len() || buf.len() - pos < 4 {
        return Err(truncated_error(buf.len(), pos, 4));
    }
    Ok((combine_u32(order, buf[pos], buf[pos + 1], buf[pos + 2], buf[pos + 3]), pos + 4))
}

/// Reads a `u64` at `pos`; on success also returns the position after it.
pub fn read_u64(buf: &[u8], pos: usize, order: ByteOrder) -> (r: Result<(u64, usize), FormatError>)
    ensures
        pos + 8 <= buf@.len() ==> r == Ok::<(u64, usize), FormatError>(
            (u64_at(order, buf@, pos as int), (pos + 8) as usize),
        ),
        pos + 8 > buf@.len() ==> r == Err::<(u64, usize), FormatError>(
            truncated(buf@.len() as int, pos as int, 8),
        ),
{
    if pos > buf.len() || buf.len() - pos < 8 {
        return Err(truncated_error(buf.len(), pos, 8));
    }
    let a = combine_u32(order, buf[pos], buf[pos + 1], buf[pos + 2], buf[pos + 3]);
    let b = combine_u32(order, buf[pos + 4], buf[pos + 5], buf[pos + 6], buf[pos + 7]);
    let v = match order {
        ByteOrder::LittleEndian => a as u64 + (b as u64) * 0x1_0000_0000,
        ByteOrder::BigEndian => b as u64 + (a as u64) * 0x1_0000_0000,
    };
    Ok((v, pos + 8))
}

/// The two's-complement reading of a byte.
pub open spec fn i8_of(x: u8) -> i8 {
    if x < 0x80 { x as i8 } else { (x as int - 0x100) as i8 }
}

/// The two's-complement reading of a `u16`.
pub open spec fn i16_of(x: u16) -> i16 {
    if x < 0x8000 { x as i16 } else { (x as int - 0x1_0000) as i16 }
}

/// The two's-complement reading of a `u32`.
pub open spec fn i32_of(x: u32) -> i32 {
    if x < 0x8000_0000 { x as i32 } else { (x as int - 0x1_0000_0000) as i32 }
}

/// Reinterprets a byte as a signed byte.
pub fn to_i8(x: u8) -> (r: i8)
    ensures
        r == i8_of(x),
{
    if x < 0x80 { x as i8 } else { (x as i16 - 0x100) as i8 }
}

/// Reinterprets a `u16` as an `i16`.
pub fn to_i16(x: u16) -> (r: i16)
    ensures
        r == i16_of(x),
{
    if x < 0x8000 { x as i16 } else { (x as i32 - 0x1_0000) as i16 }
}

/// Reinterprets a `u32` as an `i32`.
pub fn to_i32(x: u32) -> (r: i32)
    ensures
        r == i32_of(x),
{
    if x < 0x8000_0000 { x as i32 } else { (x as i64 - 0x1_0000_0000) as i32 }
}

/// Reads an `i16` at `pos` (two's complement of the `u16` there).
pub fn read_i16(buf: &[u8], pos: usize, order: ByteOrder) -> (r: Result<(i16, usize), FormatError>)
    ensures
        pos + 2 <= buf@.len() ==> r == Ok::<(i16, usize), FormatError>(
            (i16_of(u16_at(order, buf@, pos as int)), (pos + 2) as usize),
        ),
        pos + 2 > buf@.len() ==> r == Err::<(i16, usize), FormatError>(
            truncated(buf@.len() as int, pos as int, 2),
        ),
{
    match read_u16(buf, pos, order) {
        Ok((v, next)) => Ok((to_i16(v), next)),
        Err(e) => Err(e),
    }
}

/// Reads an `i32` at `pos` (two's complement of the `u32` there).
pub fn read_i32(buf: &[u8], pos: usize, order: ByteOrder) -> (r: Result<(i32, usize), FormatError>)
    ensures
        pos + 4 <= buf@.len() ==> r == Ok::<(i32, usize), FormatError>(
            (i32_of(u32_at(order, buf@, pos as int)), (pos + 4) as usize),
        ),
        pos + 4 > buf@.len() ==> r == Err::<(i32, usize), FormatError>(
            truncated(buf@.len() as int, pos as int, 4),
        ),
{
    match read_u32(buf, pos, order) {
        Ok((v, next)) => Ok((to_i32(v), next)),
        Err(e) => Err(e),
    }
}

} // verus!
