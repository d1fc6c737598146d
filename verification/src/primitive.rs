//! Fixed-width integer readers, parameterized by byte order.

use vstd::prelude::*;
use crate::data::ByteOrder;

verus! {

/// The unsigned 16-bit number stored at `pos`.
pub open spec fn u16_at(s: Seq<u8>, pos: int, order: ByteOrder) -> int {
    match order {
        ByteOrder::LittleEndian => s[pos] as int + 256 * (s[pos + 1] as int),
        ByteOrder::BigEndian => s[pos + 1] as int + 256 * (s[pos] as int),
    }
}

/// The unsigned 32-bit number stored at `pos`.
pub open spec fn u32_at(s: Seq<u8>, pos: int, order: ByteOrder) -> int {
    match order {
        ByteOrder::LittleEndian => u16_at(s, pos, order) + 65536 * u16_at(s, pos + 2, order),
        ByteOrder::BigEndian => u16_at(s, pos + 2, order) + 65536 * u16_at(s, pos, order),
    }
}

/// The unsigned 64-bit number stored at `pos`.
pub open spec fn u64_at(s: Seq<u8>, pos: int, order: ByteOrder) -> int {
    match order {
        ByteOrder::LittleEndian => u32_at(s, pos, order) + 4294967296 * u32_at(s, pos + 4, order),
        ByteOrder::BigEndian => u32_at(s, pos + 4, order) + 4294967296 * u32_at(s, pos, order),
    }
}

/// Two's-complement reading of an unsigned number of `2 * half` possible values.
pub open spec fn as_signed(v: int, half: int) -> int {
    if v >= half {
        v - 2 * half
    } else {
        v
    }
}

/// The signed 8-bit number stored at `pos`.
pub open spec fn i8_at(s: Seq<u8>, pos: int) -> int {
    as_signed(s[pos] as int, 128)
}

/// The signed 16-bit number stored at `pos`.
pub open spec fn i16_at(s: Seq<u8>, pos: int, order: ByteOrder) -> int {
    as_signed(u16_at(s, pos, order), 32768)
}

/// The signed 32-bit number stored at `pos`.
pub open spec fn i32_at(s: Seq<u8>, pos: int, order: ByteOrder) -> int {
    as_signed(u32_at(s, pos, order), 2147483648)
}

/// The signed 64-bit number stored at `pos`.
pub open spec fn i64_at(s: Seq<u8>, pos: int, order: ByteOrder) -> int {
    as_signed(u64_at(s, pos, order), 9223372036854775808)
}

/// Smallest multiple of `multiple` that is not below `x`.
pub open spec fn ceil_multiple(x: int, multiple: int) -> int
    recommends
        multiple > 0,
        x >= 0,
{
    if x % multiple == 0 {
        x
    } else {
        x + multiple - x % multiple
    }
}

/// Rounds `x` up to the next multiple of `multiple`.
pub fn ceil_to_multiple(x: u32, multiple: u32) -> (r: u64)
    requires
        multiple > 0,
    ensures
        r == ceil_multiple(x as int, multiple as int),
        r % (multiple as u64) == 0,
        x <= r < x + multiple,
{
    let rem: u32 = x % multiple;
    if rem == 0 {
        x as u64
    } else {
        let r: u64 = x as u64 + (multiple - rem) as u64;
        assert(r % (multiple as u64) == 0) by (nonlinear_arith)
            requires
                r == x + multiple - rem,
                rem == x % multiple,
                multiple > 0,
                0 < rem,
        ;
        r
    }
}

/// Reads the unsigned 16-bit number stored at `pos`.
pub fn read_u16(bytes: &[u8], pos: usize, order: ByteOrder) -> (r: u16)
    requires
        pos + 2 <= bytes.len(),
    ensures
        r == u16_at(bytes@, pos as int, order),
{
    let a: u16 = bytes[pos] as u16;
    let b: u16 = bytes[pos + 1] as u16;
    match order {
        ByteOrder::LittleEndian => a + 256 * b,
        ByteOrder::BigEndian => b + 256 * a,
    }
}

/// Reads the unsigned 32-bit number stored at `pos`.
pub fn read_u32(bytes: &[u8], pos: usize, order: ByteOrder) -> (r: u32)
    requires
        pos + 4 <= bytes.len(),
    ensures
        r == u32_at(bytes@, pos as int, order),
{
    let a: u32 = read_u16(bytes, pos, order) as u32;
    let b: u32 = read_u16(bytes, pos + 2, order) as u32;
    match order {
        ByteOrder::LittleEndian => a + 65536 * b,
        ByteOrder::BigEndian => b + 65536 * a,
    }
}

/// Reads the unsigned 64-bit number stored at `pos`.
pub fn read_u64(bytes: &[u8], pos: usize, order: ByteOrder) -> (r: u64)
    requires
        pos + 8 <= bytes.len(),
    ensures
        r == u64_at(bytes@, pos as int, order),
{
    let a: u64 = read_u32(bytes, pos, order) as u64;
    let b: u64 = read_u32(bytes, pos + 4, order) as u64;
    match order {
        ByteOrder::LittleEndian => a + 4294967296 * b,
        ByteOrder::BigEndian => b + 4294967296 * a,
    }
}

/// Reads the signed 8-bit number stored at `pos`.
pub fn read_i8(bytes: &[u8], pos: usize) -> (r: i8)
    requires
        pos < bytes.len(),
    ensures
        r == i8_at(bytes@, pos as int),
{
    let u: u8 = bytes[pos];
    if u < 128 {
        u as i8
    } else {
        (u - 128) as i8 + i8::MIN
    }
}

/// Reads the signed 16-bit number stored at `pos`.
pub fn read_i16(bytes: &[u8], pos: usize, order: ByteOrder) -> (r: i16)
    requires
        pos + 2 <= bytes.len(),
    ensures
        r == i16_at(bytes@, pos as int, order),
{
    let u: u16 = read_u16(bytes, pos, order);
    if u < 32768 {
        u as i16
    } else {
        (u - 32768) as i16 + i16::MIN
    }
}

/// Reads the signed 32-bit number stored at `pos`.
pub fn read_i32(bytes: &[u8], pos: usize, order: ByteOrder) -> (r: i32)
    requires
        pos + 4 <= bytes.len(),
    ensures
        r == i32_at(bytes@, pos as int, order),
{
    let u: u32 = read_u32(bytes, pos, order);
    if u < 2147483648 {
        u as i32
    } else {
        (u - 2147483648) as i32 + i32::MIN
    }
}

/// Reads the signed 64-bit number stored at `pos`.
pub fn read_i64(bytes: &[u8], pos: usize, order: ByteOrder) -> (r: i64)
    requires
        pos + 8 <= bytes.len(),
    ensures
        r == i64_at(bytes@, pos as int, order),
{
    let u: u64 = read_u64(bytes, pos, order);
    if u < 9223372036854775808 {
        u as i64
    } else {
        (u - 9223372036854775808) as i64 + i64::MIN
    }
}

} // verus!
