//! Building MO-like byte content from numbers, for checks of the MO parser.

use vstd::prelude::*;
use crate::bitwise::{as_u8_array_be, as_u8_array_le};
use crate::mowriter::u32_bytes;

verus! {

/// The bytes of `data`, each number in the byte order `le` selects.
pub open spec fn numbers_bytes(data: Seq<u32>, le: bool) -> Seq<u8>
    decreases data.len(),
{
    if data.len() == 0 {
        Seq::empty()
    } else {
        numbers_bytes(data.drop_last(), le) + u32_bytes(data.last(), le)
    }
}

/// The bytes of `data`, each number in four bytes in the byte order `le`
/// selects.
pub fn create_binary_content(data: &Vec<u32>, le: bool) -> (r: Vec<u8>)
    ensures
        r@ == numbers_bytes(data@, le),
{
    let mut buf: Vec<u8> = Vec::new();
    let mut i: usize = 0;
    while i < data.len()
        invariant
            i <= data@.len(),
            buf@ == numbers_bytes(data@.subrange(0, i as int), le),
        decreases data.len() - i,
    {
        let b = if le {
            as_u8_array_le(data[i])
        } else {
            as_u8_array_be(data[i])
        };
        buf.push(b[0]);
        buf.push(b[1]);
        buf.push(b[2]);
        buf.push(b[3]);
        assert(data@.subrange(0, i + 1).drop_last() =~= data@.subrange(0, i as int));
        assert(buf@ =~= numbers_bytes(data@.subrange(0, i + 1), le));
        i = i + 1;
    }
    assert(data@.subrange(0, i as int) =~= data@);
    buf
}

/// The bytes of `data` followed by `additional_bytes`.
pub fn create_corrupted_binary_content(data: &Vec<u32>, le: bool, additional_bytes: &Vec<u8>) -> (r: Vec<u8>)
    ensures
        r@ == numbers_bytes(data@, le) + additional_bytes@,
{
    let mut buf = create_binary_content(data, le);
    let ghost head = buf@;
    let mut i: usize = 0;
    while i < additional_bytes.len()
        invariant
            i <= additional_bytes@.len(),
            buf@ == head + additional_bytes@.subrange(0, i as int),
        decreases additional_bytes.len() - i,
    {
        buf.push(additional_bytes[i]);
        i = i + 1;
        assert(buf@ =~= head + additional_bytes@.subrange(0, i as int));
    }
    assert(additional_bytes@.subrange(0, i as int) =~= additional_bytes@);
    buf
}

} // verus!
