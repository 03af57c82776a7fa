//! Bit addressing: a byte buffer read as a string of bits.
use vstd::prelude::*;

verus! {

/// Bit `k` of a byte, counted from the most significant bit (`k == 0`) down
/// to the least significant (`k == 7`).
pub open spec fn byte_bit(b: u8, k: int) -> bool {
    (b >> ((7 - k) as u8)) & 1 == 1
}

/// Bit `i` of a buffer: bit `i % 8` of byte `i / 8`.
pub open spec fn bit_value(buf: Seq<u8>, i: int) -> bool {
    byte_bit(buf[i / 8], i % 8)
}

/// The first `bit_len` bits of a buffer. This is the model of a capture that
/// all stages of the decoder are stated over.
pub open spec fn bits_of(buf: Seq<u8>, bit_len: int) -> Seq<bool> {
    Seq::new(bit_len as nat, |i: int| bit_value(buf, i))
}

/// All bits of a buffer.
pub open spec fn all_bits(buf: Seq<u8>) -> Seq<bool> {
    bits_of(buf, buf.len() as int * 8)
}

/// A bit as the number 0 or 1.
pub open spec fn bit_as_byte(b: bool) -> u8 {
    if b { 1 } else { 0 }
}

/// Returns bit `bit_idx` of `buf` as 0 or 1.
pub fn bit_at(buf: &[u8], bit_idx: usize) -> (bit: u8)
    requires
        bit_idx < buf@.len() * 8,
    ensures
        bit == bit_as_byte(bit_value(buf@, bit_idx as int)),
{
    let byte_idx: usize = bit_idx / 8;
    let bit_in_byte: usize = 7 - (bit_idx % 8);
    let byte: u8 = buf[byte_idx];
    assert(((byte >> bit_in_byte) & 1) == 0 || ((byte >> bit_in_byte) & 1) == 1) by (bit_vector);
    (byte >> bit_in_byte) & 1
}

} // verus!
