//! Byte order of the integers in kernel structures.
//!
//! The kernel writes the integers of a frame or a netlink message in the byte
//! order of the machine. Everything here takes that order as an argument;
//! [`native_order`] finds out which one the machine has.
use vstd::prelude::*;

verus! {

/// The order in which the bytes of an integer stand in memory.
#[derive(Clone, Copy, Debug, PartialEq, Eq, Structural)]
pub enum ByteOrder {
    /// Least significant byte first.
    Little,
    /// Most significant byte first.
    Big,
}

/// The integer whose two bytes, in the given order, are `b`.
pub open spec fn u16_of(order: ByteOrder, b: Seq<u8>) -> u16 {
    match order {
        ByteOrder::Little => (b[0] + 256 * b[1]) as u16,
        ByteOrder::Big => (b[1] + 256 * b[0]) as u16,
    }
}

/// The integer whose four bytes, in the given order, are `b`.
pub open spec fn u32_of(order: ByteOrder, b: Seq<u8>) -> u32 {
    match order {
        ByteOrder::Little => (b[0] + 0x100 * b[1] + 0x1_0000 * b[2] + 0x100_0000 * b[3]) as u32,
        ByteOrder::Big => (b[3] + 0x100 * b[2] + 0x1_0000 * b[1] + 0x100_0000 * b[0]) as u32,
    }
}

/// The two bytes of `v` in the given order.
pub open spec fn u16_bytes(order: ByteOrder, v: u16) -> Seq<u8> {
    match order {
        ByteOrder::Little => seq![(v % 256) as u8, (v / 256) as u8],
        ByteOrder::Big => seq![(v / 256) as u8, (v % 256) as u8],
    }
}

/// The four bytes of `v` in the given order.
pub open spec fn u32_bytes(order: ByteOrder, v: u32) -> Seq<u8> {
    let b0 = (v % 0x100) as u8;
    let b1 = (v / 0x100 % 0x100) as u8;
    let b2 = (v / 0x1_0000 % 0x100) as u8;
    let b3 = (v / 0x100_0000) as u8;
    match order {
        ByteOrder::Little => seq![b0, b1, b2, b3],
        ByteOrder::Big => seq![b3, b2, b1, b0],
    }
}

/// Reading back the two bytes of an integer gives the integer.
pub proof fn law_u16_round_trip(order: ByteOrder, v: u16)
    ensures
        u16_bytes(order, v).len() == 2,
        u16_of(order, u16_bytes(order, v)) == v,
{
}

/// Reading back the four bytes of an integer gives the integer.
pub proof fn law_u32_round_trip(order: ByteOrder, v: u32)
    ensures
        u32_bytes(order, v).len() == 4,
        u32_of(order, u32_bytes(order, v)) == v,
{
}

/// Reads two bytes of `buf` at `at`.
pub fn read_u16(order: ByteOrder, buf: &[u8], at: usize) -> (v: u16)
    requires
        at + 2 <= buf@.len(),
    ensures
        v == u16_of(order, buf@.subrange(at as int, at + 2)),
{
    let b0 = buf[at] as u16;
    let b1 = buf[at + 1] as u16;
    match order {
        ByteOrder::Little => b0 + 256 * b1,
        ByteOrder::Big => b1 + 256 * b0,
    }
}

/// Reads four bytes of `buf` at `at`.
pub fn read_u32(order: ByteOrder, buf: &[u8], at: usize) -> (v: u32)
    requires
        at + 4 <= buf@.len(),
    ensures
        v == u32_of(order, buf@.subrange(at as int, at + 4)),
{
    let b0 = buf[at] as u32;
    let b1 = buf[at + 1] as u32;
    let b2 = buf[at + 2] as u32;
    let b3 = buf[at + 3] as u32;
    match order {
        ByteOrder::Little => b0 + 0x100 * b1 + 0x1_0000 * b2 + 0x100_0000 * b3,
        ByteOrder::Big => b3 + 0x100 * b2 + 0x1_0000 * b1 + 0x100_0000 * b0,
    }
}

/// The signed integer whose four bytes, in the given order, are `b`.
pub open spec fn i32_of(order: ByteOrder, b: Seq<u8>) -> i32 {
    let v = u32_of(order, b) as int;
    (if v < 0x8000_0000 {
        v
    } else {
        v - 0x1_0000_0000
    }) as i32
}

/// Reads four bytes of `buf` at `at` as a signed integer.
pub fn read_i32(order: ByteOrder, buf: &[u8], at: usize) -> (v: i32)
    requires
        at + 4 <= buf@.len(),
    ensures
        v == i32_of(order, buf@.subrange(at as int, at + 4)),
{
    let v = read_u32(order, buf, at);
    if v < 0x8000_0000 {
        v as i32
    } else {
        -((0xFFFF_FFFF - v) as i32) - 1
    }
}

/// The low 32 bits of `v` as a signed integer.
pub open spec fn i32_wrapped(v: usize) -> i32 {
    let low = v as int % 0x1_0000_0000;
    (if low < 0x8000_0000 {
        low
    } else {
        low - 0x1_0000_0000
    }) as i32
}

/// `v` as a signed integer of the same width.
pub open spec fn i64_wrapped(v: u64) -> i64 {
    (if v < 0x8000_0000_0000_0000 {
        v as int
    } else {
        v - 0x1_0000_0000_0000_0000
    }) as i64
}

/// `v` as an unsigned integer of the same width.
pub open spec fn u64_wrapped(v: i64) -> u64 {
    (if v >= 0 {
        v as int
    } else {
        v + 0x1_0000_0000_0000_0000
    }) as u64
}

/// The low 32 bits of `v` as a signed integer.
pub fn low_i32(v: usize) -> (r: i32)
    ensures
        r == i32_wrapped(v),
{
    let low = (v as u64) % 0x1_0000_0000;
    if low < 0x8000_0000 {
        low as i32
    } else {
        -((0xFFFF_FFFF - low) as i32) - 1
    }
}

/// `v` as a signed integer of the same width.
pub fn low_i64(v: u64) -> (r: i64)
    ensures
        r == i64_wrapped(v),
{
    if v < 0x8000_0000_0000_0000 {
        v as i64
    } else {
        -((0xFFFF_FFFF_FFFF_FFFF - v) as i64) - 1
    }
}

/// `v` as an unsigned integer of the same width.
pub fn as_unsigned(v: i64) -> (r: u64)
    ensures
        r == u64_wrapped(v),
{
    if v >= 0 {
        v as u64
    } else {
        0xFFFF_FFFF_FFFF_FFFF - ((-(v + 1)) as u64)
    }
}

/// The two bytes of `v`.
pub fn put_u16(order: ByteOrder, v: u16) -> (b: [u8; 2])
    ensures
        b@ == u16_bytes(order, v),
{
    let low = (v % 256) as u8;
    let high = (v / 256) as u8;
    match order {
        ByteOrder::Little => [low, high],
        ByteOrder::Big => [high, low],
    }
}

/// The four bytes of `v`.
pub fn put_u32(order: ByteOrder, v: u32) -> (b: [u8; 4])
    ensures
        b@ == u32_bytes(order, v),
{
    let b0 = (v % 0x100) as u8;
    let b1 = (v / 0x100 % 0x100) as u8;
    let b2 = (v / 0x1_0000 % 0x100) as u8;
    let b3 = (v / 0x100_0000) as u8;
    match order {
        ByteOrder::Little => [b0, b1, b2, b3],
        ByteOrder::Big => [b3, b2, b1, b0],
    }
}

/// Calls [`u16::to_ne_bytes`], which returns the two bytes of `v` in the byte
/// order of the machine. Which of the two orders that is depends on the
/// target, so the contract claims no more than that it is one of them.
#[verifier::external_body]
fn u16_native_bytes(v: u16) -> (b: [u8; 2])
    ensures
        b@ == u16_bytes(ByteOrder::Little, v) || b@ == u16_bytes(ByteOrder::Big, v),
{
    v.to_ne_bytes()
}

impl ByteOrder {
    /// The order in which `bytes` stand, given that they are the two bytes of
    /// the integer one.
    pub fn of_one(bytes: [u8; 2]) -> (order: Self)
        requires
            bytes@ == u16_bytes(ByteOrder::Little, 1) || bytes@ == u16_bytes(ByteOrder::Big, 1),
        ensures
            bytes@ == u16_bytes(order, 1),
    {
        if bytes[0] == 1 {
            ByteOrder::Little
        } else {
            ByteOrder::Big
        }
    }
}

/// The byte order of this machine. Both are possible, so nothing is promised
/// of the result: what is done with it is verified for either.
pub fn native_order() -> (order: ByteOrder) {
    ByteOrder::of_one(u16_native_bytes(1))
}

/// The number that four bytes make, the first of them the lowest (little) or the
/// highest (big).
pub open spec fn sum_of_four(order: ByteOrder, a: u8, b: u8, c: u8, d: u8) -> int {
    match order {
        ByteOrder::Little => a + 256 * (b + 256 * (c + 256 * d)),
        ByteOrder::Big => d + 256 * (c + 256 * (b + 256 * a)),
    }
}

/// Integers are read, and written, with the lowest byte first or last.
pub proof fn law_bytes_stand_in_order(order: ByteOrder, b: Seq<u8>, v: u32, w: u16)
    requires
        b.len() >= 4,
    ensures
        u32_of(order, b) == sum_of_four(order, b[0], b[1], b[2], b[3]),
        u16_of(order, b) == match order {
            ByteOrder::Little => b[0] + 256 * b[1],
            ByteOrder::Big => b[1] + 256 * b[0],
        },
        i32_of(order, b) == u32_of(order, b) || i32_of(order, b) + 0x1_0000_0000 == u32_of(
            order,
            b,
        ),
        ({
            let x = u32_bytes(order, v);
            &&& x.len() == 4
            &&& sum_of_four(order, x[0], x[1], x[2], x[3]) == v
        }),
        ({
            let y = u16_bytes(order, w);
            &&& y.len() == 2
            &&& w == match order {
                ByteOrder::Little => y[0] + 256 * y[1],
                ByteOrder::Big => y[1] + 256 * y[0],
            }
        }),
{
}

/// A number that the other type can hold goes over as it is; any other keeps its
/// low bits.
pub proof fn law_conversions_keep_the_number(n: usize, u: u64, i: i64)
    ensures
        n <= i32::MAX ==> i32_wrapped(n) == n,
        (n - i32_wrapped(n)) % 0x1_0000_0000 == 0,
        u <= i64::MAX ==> i64_wrapped(u) == u,
        (u - i64_wrapped(u)) % 0x1_0000_0000_0000_0000 == 0,
        i >= 0 ==> u64_wrapped(i) == i,
        (u64_wrapped(i) - i) % 0x1_0000_0000_0000_0000 == 0,
{
    let low = n as int % 0x1_0000_0000;
    assert((n - low) % 0x1_0000_0000 == 0);
}

} // verus!
