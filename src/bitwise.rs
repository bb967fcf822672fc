//! 32-bit integers to and from four bytes, in either byte order.

use vstd::prelude::*;

verus! {

/// The number held by four bytes read least significant first.
pub open spec fn u32_from_le(b: Seq<u8>) -> int
    recommends
        b.len() == 4,
{
    b[0] as int + b[1] as int * 0x100 + b[2] as int * 0x10000 + b[3] as int * 0x1000000
}

/// The number held by four bytes read most significant first.
pub open spec fn u32_from_be(b: Seq<u8>) -> int
    recommends
        b.len() == 4,
{
    b[3] as int + b[2] as int * 0x100 + b[1] as int * 0x10000 + b[0] as int * 0x1000000
}

/// The four bytes of `x`, least significant first.
pub open spec fn le_bytes(x: u32) -> Seq<u8> {
    seq![(x % 0x100) as u8, ((x / 0x100) % 0x100) as u8, ((x / 0x10000) % 0x100) as u8, (x / 0x1000000) as u8]
}

/// The four bytes of `x`, most significant first.
pub open spec fn be_bytes(x: u32) -> Seq<u8> {
    seq![(x / 0x1000000) as u8, ((x / 0x10000) % 0x100) as u8, ((x / 0x100) % 0x100) as u8, (x % 0x100) as u8]
}

/// The four bytes of `num`, least significant first.
pub fn as_u8_array_le(num: u32) -> (r: [u8; 4])
    ensures
        u32_from_le(r@) == num,
        r@ == le_bytes(num),
{
    let (b0, b1, b2, b3) = (num as u8, (num >> 8u32) as u8, (num >> 16u32) as u8, (num >> 24u32) as u8);
    assert(b0 as int + b1 as int * 0x100 + b2 as int * 0x10000 + b3 as int * 0x1000000 == num)
        by (bit_vector)
        requires
            b0 == num as u8,
            b1 == (num >> 8u32) as u8,
            b2 == (num >> 16u32) as u8,
            b3 == (num >> 24u32) as u8,
    ;
    assert(b0 == (num % 0x100) as u8 && b1 == ((num / 0x100) % 0x100) as u8 && b2 == ((num / 0x10000) % 0x100)
        as u8 && b3 == (num / 0x1000000) as u8) by (bit_vector)
        requires
            b0 == num as u8,
            b1 == (num >> 8u32) as u8,
            b2 == (num >> 16u32) as u8,
            b3 == (num >> 24u32) as u8,
    ;
    let r = [b0, b1, b2, b3];
    assert(r@ =~= le_bytes(num));
    r
}

/// The four bytes of `num`, most significant first.
pub fn as_u8_array_be(num: u32) -> (r: [u8; 4])
    ensures
        u32_from_be(r@) == num,
        r@ == be_bytes(num),
{
    let (b0, b1, b2, b3) = ((num >> 24u32) as u8, (num >> 16u32) as u8, (num >> 8u32) as u8, num as u8);
    assert(b3 as int + b2 as int * 0x100 + b1 as int * 0x10000 + b0 as int * 0x1000000 == num)
        by (bit_vector)
        requires
            b3 == num as u8,
            b2 == (num >> 8u32) as u8,
            b1 == (num >> 16u32) as u8,
            b0 == (num >> 24u32) as u8,
    ;
    assert(b3 == (num % 0x100) as u8 && b2 == ((num / 0x100) % 0x100) as u8 && b1 == ((num / 0x10000) % 0x100)
        as u8 && b0 == (num / 0x1000000) as u8) by (bit_vector)
        requires
            b3 == num as u8,
            b2 == (num >> 8u32) as u8,
            b1 == (num >> 16u32) as u8,
            b0 == (num >> 24u32) as u8,
    ;
    let r = [b0, b1, b2, b3];
    assert(r@ =~= be_bytes(num));
    r
}

/// The number held by `array`, least significant byte first.
pub fn as_u32_le(array: &[u8; 4]) -> (r: u32)
    ensures
        r == u32_from_le(array@),
{
    let (b0, b1, b2, b3) = (array[0], array[1], array[2], array[3]);
    let r = (b0 as u32) | ((b1 as u32) << 8u32) | ((b2 as u32) << 16u32) | ((b3 as u32) << 24u32);
    assert(r == b0 as int + b1 as int * 0x100 + b2 as int * 0x10000 + b3 as int * 0x1000000)
        by (bit_vector)
        requires
            r == (b0 as u32) | ((b1 as u32) << 8u32) | ((b2 as u32) << 16u32) | ((b3 as u32) << 24u32),
    ;
    r
}

/// The number held by `array`, most significant byte first.
pub fn as_u32_be(array: &[u8; 4]) -> (r: u32)
    ensures
        r == u32_from_be(array@),
{
    let (b0, b1, b2, b3) = (array[0], array[1], array[2], array[3]);
    let r = ((b0 as u32) << 24u32) | ((b1 as u32) << 16u32) | ((b2 as u32) << 8u32) | (b3 as u32);
    assert(r == b3 as int + b2 as int * 0x100 + b1 as int * 0x10000 + b0 as int * 0x1000000)
        by (bit_vector)
        requires
            r == ((b0 as u32) << 24u32) | ((b1 as u32) << 16u32) | ((b2 as u32) << 8u32) | (b3 as u32),
    ;
    r
}

} // verus!
