//! Numbers read from bytes, the most significant byte first.

use byteorder::ByteOrder;
use vstd::prelude::*;

verus! {

/// The number that the first four of `bytes` write, the most significant
/// byte first, as a signed number of 32 bits.
pub open spec fn big_endian_i32(bytes: Seq<u8>) -> int {
    let unsigned = bytes[0] * 0x100_0000 + bytes[1] * 0x1_0000 + bytes[2] * 0x100 + bytes[3];
    if unsigned >= 0x8000_0000 {
        unsigned - 0x1_0000_0000
    } else {
        unsigned
    }
}

/// Calls `byteorder::BigEndian::read_i32`, which reads the first four
/// bytes and panics where there are fewer.
#[verifier::external_body]
fn read_big_endian(bytes: &[u8]) -> (number: i32)
    requires
        bytes@.len() >= 4,
    ensures
        number == big_endian_i32(bytes@),
{
    byteorder::BigEndian::read_i32(bytes)
}

/// The signed number of 32 bits at the head of `bytes`, the most
/// significant byte first; zero where there are fewer than four bytes.
pub fn int_of_bytes(bytes: &[u8]) -> (number: i32)
    ensures
        number == (if bytes@.len() >= 4 {
            big_endian_i32(bytes@)
        } else {
            0
        }),
{
    if bytes.len() >= 4 {
        read_big_endian(bytes)
    } else {
        0
    }
}

} // verus!
