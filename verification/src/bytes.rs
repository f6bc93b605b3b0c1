//! Little-endian fields of a byte buffer and self-relative pointers.
use vstd::prelude::*;

verus! {

/// The little-endian 16-bit number stored in `b` from `at` on.
pub open spec fn u16_at(b: Seq<u8>, at: int) -> u16 {
    (b[at] + 0x100 * b[at + 1]) as u16
}

/// The little-endian 32-bit number stored in `b` from `at` on.
pub open spec fn u32_at(b: Seq<u8>, at: int) -> u32 {
    (u16_at(b, at) + 0x1_0000 * u16_at(b, at + 2)) as u32
}

/// The little-endian 64-bit number stored in `b` from `at` on.
pub open spec fn u64_at(b: Seq<u8>, at: int) -> u64 {
    (u32_at(b, at) + 0x1_0000_0000 * u32_at(b, at + 4)) as u64
}

/// The little-endian two's complement 32-bit number stored in `b` from `at` on.
pub open spec fn i32_at(b: Seq<u8>, at: int) -> i32 {
    if u32_at(b, at) < 0x8000_0000 {
        u32_at(b, at) as i32
    } else {
        (u32_at(b, at) - 0x1_0000_0000) as i32
    }
}

/// The little-endian two's complement 64-bit number stored in `b` from `at` on.
pub open spec fn i64_at(b: Seq<u8>, at: int) -> i64 {
    if u64_at(b, at) < 0x8000_0000_0000_0000 {
        u64_at(b, at) as i64
    } else {
        (u64_at(b, at) - 0x1_0000_0000_0000_0000) as i64
    }
}

/// Reads a 16-bit field that is known to lie inside the buffer.
pub fn get_u16(b: &[u8], at: usize) -> (r: u16)
    requires
        at + 2 <= b.len(),
    ensures
        r == u16_at(b@, at as int),
{
    b[at] as u16 + 0x100 * (b[at + 1] as u16)
}

/// Reads a 32-bit field that is known to lie inside the buffer.
pub fn get_u32(b: &[u8], at: usize) -> (r: u32)
    requires
        at + 4 <= b.len(),
    ensures
        r == u32_at(b@, at as int),
{
    get_u16(b, at) as u32 + 0x1_0000 * (get_u16(b, at + 2) as u32)
}

/// Reads a 64-bit field that is known to lie inside the buffer.
pub fn get_u64(b: &[u8], at: usize) -> (r: u64)
    requires
        at + 8 <= b.len(),
    ensures
        r == u64_at(b@, at as int),
{
    get_u32(b, at) as u64 + 0x1_0000_0000 * (get_u32(b, at + 4) as u64)
}

/// Reads a signed 32-bit field that is known to lie inside the buffer.
pub fn get_i32(b: &[u8], at: usize) -> (r: i32)
    requires
        at + 4 <= b.len(),
    ensures
        r == i32_at(b@, at as int),
{
    let u: u32 = get_u32(b, at);
    if u < 0x8000_0000 {
        u as i32
    } else {
        (u as i64 - 0x1_0000_0000) as i32
    }
}

/// Reads a signed 64-bit field that is known to lie inside the buffer.
pub fn get_i64(b: &[u8], at: usize) -> (r: i64)
    requires
        at + 8 <= b.len(),
    ensures
        r == i64_at(b@, at as int),
{
    let u: u64 = get_u64(b, at);
    if u < 0x8000_0000_0000_0000 {
        u as i64
    } else {
        (u as i128 - 0x1_0000_0000_0000_0000) as i64
    }
}

/// The offset that a pointer relative to `base` stands for, as a 64-bit number
/// that wraps around.
pub open spec fn resolved(base: int, rel: int) -> int {
    let sum = base + rel;
    if sum < 0 {
        sum + 0x1_0000_0000_0000_0000
    } else if sum > u64::MAX {
        sum - 0x1_0000_0000_0000_0000
    } else {
        sum
    }
}

/// Resolves a pointer relative to `base`.
pub fn resolve(base: u64, rel: i64) -> (r: u64)
    ensures
        r == resolved(base as int, rel as int),
{
    let sum: i128 = base as i128 + rel as i128;
    if sum < 0 {
        (sum + 0x1_0000_0000_0000_0000) as u64
    } else if sum > 0xFFFF_FFFF_FFFF_FFFF {
        (sum - 0x1_0000_0000_0000_0000) as u64
    } else {
        sum as u64
    }
}

/// Whether `count` items of `stride` bytes from `at` on end inside a file of
/// `len` bytes.
pub open spec fn array_fits(len: int, at: int, count: int, stride: int) -> bool {
    at + count * stride <= len
}

/// Whether `count` items of `stride` bytes from `at` on end inside the buffer.
pub fn fits(b: &[u8], at: u64, count: u32, stride: u32) -> (r: bool)
    ensures
        r == array_fits(b@.len() as int, at as int, count as int, stride as int),
        r ==> at <= usize::MAX && at + count * stride <= b.len(),
{
    assert(0 <= count * stride <= 0xFFFF_FFFF * 0xFFFF_FFFF) by (nonlinear_arith)
        requires
            count <= 0xFFFF_FFFF,
            stride <= 0xFFFF_FFFF,
    ;
    at as u128 + count as u128 * stride as u128 <= b.len() as u128
}

pub open spec fn u16s_at(b: Seq<u8>, at: int, count: int) -> Seq<u16> {
    Seq::new(count as nat, |i: int| u16_at(b, at + 2 * i))
}

pub open spec fn u32s_at(b: Seq<u8>, at: int, count: int) -> Seq<u32> {
    Seq::new(count as nat, |i: int| u32_at(b, at + 4 * i))
}

pub open spec fn u64s_at(b: Seq<u8>, at: int, count: int) -> Seq<u64> {
    Seq::new(count as nat, |i: int| u64_at(b, at + 8 * i))
}

/// Reads an array of 16-bit fields that is known to lie inside the buffer.
pub fn get_u16s(b: &[u8], at: usize, count: usize) -> (r: Vec<u16>)
    requires
        at + 2 * count <= b.len(),
    ensures
        r@ == u16s_at(b@, at as int, count as int),
{
    let mut out: Vec<u16> = Vec::new();
    let mut i: usize = 0;
    while i < count
        invariant
            i <= count,
            at + 2 * count <= b.len(),
            out@.len() == i,
            forall|k: int| 0 <= k < i ==> out@[k] == u16_at(b@, at + 2 * k),
        decreases count - i,
    {
        out.push(get_u16(b, at + 2 * i));
        i += 1;
    }
    assert(out@ =~= u16s_at(b@, at as int, count as int));
    out
}

/// Reads an array of 32-bit fields that is known to lie inside the buffer.
pub fn get_u32s(b: &[u8], at: usize, count: usize) -> (r: Vec<u32>)
    requires
        at + 4 * count <= b.len(),
    ensures
        r@ == u32s_at(b@, at as int, count as int),
{
    let mut out: Vec<u32> = Vec::new();
    let mut i: usize = 0;
    while i < count
        invariant
            i <= count,
            at + 4 * count <= b.len(),
            out@.len() == i,
            forall|k: int| 0 <= k < i ==> out@[k] == u32_at(b@, at + 4 * k),
        decreases count - i,
    {
        out.push(get_u32(b, at + 4 * i));
        i += 1;
    }
    assert(out@ =~= u32s_at(b@, at as int, count as int));
    out
}

/// Reads an array of 64-bit fields that is known to lie inside the buffer.
pub fn get_u64s(b: &[u8], at: usize, count: usize) -> (r: Vec<u64>)
    requires
        at + 8 * count <= b.len(),
    ensures
        r@ == u64s_at(b@, at as int, count as int),
{
    let mut out: Vec<u64> = Vec::new();
    let mut i: usize = 0;
    while i < count
        invariant
            i <= count,
            at + 8 * count <= b.len(),
            out@.len() == i,
            forall|k: int| 0 <= k < i ==> out@[k] == u64_at(b@, at + 8 * k),
        decreases count - i,
    {
        out.push(get_u64(b, at + 8 * i));
        i += 1;
    }
    assert(out@ =~= u64s_at(b@, at as int, count as int));
    out
}

} // verus!
