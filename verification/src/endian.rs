//! Integers as they lie in packed data: a few bytes, least or most
//! significant byte first, read as an unsigned or a two's-complement number.

use byteorder::{BigEndian, ByteOrder, LittleEndian};
use vstd::prelude::*;

verus! {

/// The number that `bytes` spell, least significant byte first.
pub open spec fn le_value(bytes: Seq<u8>) -> nat
    decreases bytes.len(),
{
    if bytes.len() == 0 {
        0
    } else {
        bytes[0] as nat + 256 * le_value(bytes.skip(1))
    }
}

/// The number that `bytes` spell, most significant byte first.
pub open spec fn be_value(bytes: Seq<u8>) -> nat
    decreases bytes.len(),
{
    if bytes.len() == 0 {
        0
    } else {
        256 * be_value(bytes.drop_last()) + bytes.last() as nat
    }
}

/// The number of values that `width` bytes can tell apart.
pub open spec fn radix(width: nat) -> nat
    decreases width,
{
    if width == 0 {
        1
    } else {
        256 * radix((width - 1) as nat)
    }
}

/// An unsigned number of `width` bytes read as two's complement.
pub open spec fn signed(value: nat, width: nat) -> int {
    if 2 * value >= radix(width) {
        value - radix(width)
    } else {
        value as int
    }
}

/// The values of `radix` that this library meets.
pub proof fn lemma_radix_values()
    ensures
        radix(1) == 0x100,
        radix(2) == 0x1_0000,
        radix(3) == 0x100_0000,
        radix(4) == 0x1_0000_0000,
        radix(8) == 0x1_0000_0000_0000_0000,
{
    reveal_with_fuel(radix, 9);
}

/// Bytes read least significant first spell a number below the radix of their width.
pub proof fn lemma_le_value_bound(bytes: Seq<u8>)
    ensures
        le_value(bytes) < radix(bytes.len()),
    decreases bytes.len(),
{
    if bytes.len() > 0 {
        lemma_le_value_bound(bytes.skip(1));
    }
}

/// `byteorder::LittleEndian::read_int`: the two's-complement number that
/// one to eight bytes spell, least significant byte first.
#[verifier::external_body]
pub(crate) fn le_int(bytes: &[u8]) -> (value: i64)
    requires
        1 <= bytes@.len() <= 8,
    ensures
        value == signed(le_value(bytes@), bytes@.len()),
{
    LittleEndian::read_int(bytes, bytes.len())
}

/// `byteorder::LittleEndian::read_uint`: the unsigned number that one to
/// eight bytes spell, least significant byte first.
#[verifier::external_body]
pub(crate) fn le_uint(bytes: &[u8]) -> (value: u64)
    requires
        1 <= bytes@.len() <= 8,
    ensures
        value == le_value(bytes@),
{
    LittleEndian::read_uint(bytes, bytes.len())
}

/// `byteorder::BigEndian::read_uint`: the unsigned number that one to eight
/// bytes spell, most significant byte first.
#[verifier::external_body]
pub(crate) fn be_uint(bytes: &[u8]) -> (value: u64)
    requires
        1 <= bytes@.len() <= 8,
    ensures
        value == be_value(bytes@),
{
    BigEndian::read_uint(bytes, bytes.len())
}

} // verus!
