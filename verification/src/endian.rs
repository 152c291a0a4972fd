//! Unsigned 32-bit numbers as four bytes, most significant byte first.

use vstd::prelude::*;

verus! {

/// The number that the four bytes of `bytes` spell, most significant byte first.
pub open spec fn be_value(bytes: Seq<u8>) -> u32
    recommends
        bytes.len() == 4,
{
    (bytes[0] as int * 0x100_0000 + bytes[1] as int * 0x1_0000 + bytes[2] as int * 0x100
        + bytes[3] as int) as u32
}

/// The four bytes that spell `n`, most significant byte first.
pub open spec fn be_bytes(n: u32) -> Seq<u8> {
    seq![
        (n as int / 0x100_0000) as u8,
        (n as int / 0x1_0000 % 0x100) as u8,
        (n as int / 0x100 % 0x100) as u8,
        (n as int % 0x100) as u8,
    ]
}

/// Spelling a number and reading the spelling back gives the number.
pub proof fn lemma_be_value_of_bytes(n: u32)
    ensures
        be_bytes(n).len() == 4,
        be_value(be_bytes(n)) == n,
{
    let v = n as int;
    let b0 = v / 0x100_0000;
    let b1 = v / 0x1_0000 % 0x100;
    let b2 = v / 0x100 % 0x100;
    let b3 = v % 0x100;
    assert(v == (v / 0x100) * 0x100 + b3);
    assert(v / 0x100 == (v / 0x1_0000) * 0x100 + b2);
    assert(v / 0x1_0000 == b0 * 0x100 + b1);
    assert(0 <= b0 < 0x100);
}

/// Reading four bytes and spelling the number read gives the four bytes.
pub proof fn lemma_be_bytes_of_value(bytes: Seq<u8>)
    requires
        bytes.len() == 4,
    ensures
        be_bytes(be_value(bytes)) == bytes,
{
    let b0 = bytes[0] as int;
    let b1 = bytes[1] as int;
    let b2 = bytes[2] as int;
    let b3 = bytes[3] as int;
    let n = b0 * 0x100_0000 + b1 * 0x1_0000 + b2 * 0x100 + b3;
    assert(n / 0x100_0000 == b0);
    assert(n / 0x1_0000 == b0 * 0x100 + b1);
    assert(n / 0x100 == b0 * 0x1_0000 + b1 * 0x100 + b2);
    assert(be_value(bytes) == n);
    assert(be_bytes(be_value(bytes)) =~= bytes);
}

/// Reads an unsigned 32-bit number from four bytes, most significant byte first.
pub fn from_be_bytes(bytes: [u8; 4]) -> (n: u32)
    ensures
        n == be_value(bytes@),
{
    proof {
        }
    (bytes[0] as u32) * 0x100_0000 + (bytes[1] as u32) * 0x1_0000 + (bytes[2] as u32) * 0x100 + (
    bytes[3] as u32)
}

/// Writes an unsigned 32-bit number as four bytes, most significant byte first.
pub fn to_be_bytes(n: u32) -> (bytes: [u8; 4])
    ensures
        bytes@ == be_bytes(n),
{
    let bytes: [u8; 4] = [
        (n / 0x100_0000) as u8,
        (n / 0x1_0000 % 0x100) as u8,
        (n / 0x100 % 0x100) as u8,
        (n % 0x100) as u8,
    ];
    proof {
        }
    assert(bytes@ =~= be_bytes(n));
    bytes
}

} // verus!
