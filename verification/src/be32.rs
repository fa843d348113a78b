//! Big-endian encoding of 32-bit unsigned integers.

use vstd::prelude::*;

verus! {

/// The four bytes of `x`, most significant first.
pub open spec fn be_bytes(x: u32) -> Seq<u8> {
    seq![
        (x / 0x100_0000) as u8,
        ((x / 0x1_0000) % 0x100) as u8,
        ((x / 0x100) % 0x100) as u8,
        (x % 0x100) as u8,
    ]
}

/// The integer whose big-endian encoding is the first four bytes of `b`.
pub open spec fn be_value(b: Seq<u8>) -> u32
    recommends
        b.len() >= 4,
{
    (b[0] as int * 0x100_0000 + b[1] as int * 0x1_0000 + b[2] as int * 0x100 + b[3] as int) as u32
}

/// Decoding undoes encoding.
pub proof fn lemma_be_value_of_bytes(x: u32)
    ensures
        be_bytes(x).len() == 4,
        be_value(be_bytes(x)) == x,
{
    let q0: u32 = x / 0x100_0000;
    let q1: u32 = (x / 0x1_0000) % 0x100;
    let q2: u32 = (x / 0x100) % 0x100;
    let q3: u32 = x % 0x100;
    assert({
        &&& q0 < 0x100u32
        &&& q1 < 0x100u32
        &&& q2 < 0x100u32
        &&& q3 < 0x100u32
        &&& q0 * 0x100_0000u32 + q1 * 0x1_0000u32 + q2 * 0x100u32 + q3 == x
    }) by (bit_vector)
        requires
            q0 == x / 0x100_0000u32,
            q1 == (x / 0x1_0000u32) % 0x100u32,
            q2 == (x / 0x100u32) % 0x100u32,
            q3 == x % 0x100u32,
    ;
}

/// Encoding undoes decoding.
pub proof fn lemma_be_bytes_of_value(b: Seq<u8>)
    requires
        b.len() == 4,
    ensures
        be_bytes(be_value(b)) == b,
{
    let w0: u32 = b[0] as u32;
    let w1: u32 = b[1] as u32;
    let w2: u32 = b[2] as u32;
    let w3: u32 = b[3] as u32;
    let v: u32 = be_value(b);
    assert({
        &&& v / 0x100_0000u32 == w0
        &&& (v / 0x1_0000u32) % 0x100u32 == w1
        &&& (v / 0x100u32) % 0x100u32 == w2
        &&& v % 0x100u32 == w3
    }) by (bit_vector)
        requires
            w0 < 0x100u32,
            w1 < 0x100u32,
            w2 < 0x100u32,
            w3 < 0x100u32,
            v == w0 * 0x100_0000u32 + w1 * 0x1_0000u32 + w2 * 0x100u32 + w3,
    ;
}

/// Encodes `x` as four bytes, most significant first.
pub fn to_be_bytes(x: u32) -> (r: [u8; 4])
    ensures
        r@ == be_bytes(x),
{
    let r: [u8; 4] = [
        (x / 0x100_0000) as u8,
        ((x / 0x1_0000) % 0x100) as u8,
        ((x / 0x100) % 0x100) as u8,
        (x % 0x100) as u8,
    ];
    r
}

/// Decodes four bytes, most significant first.
pub fn from_be_bytes(b: [u8; 4]) -> (r: u32)
    ensures
        r == be_value(b@),
{
    (b[0] as u32) * 0x100_0000 + (b[1] as u32) * 0x1_0000 + (b[2] as u32) * 0x100 + (b[3] as u32)
}

} // verus!
