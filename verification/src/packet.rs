//! The packet: its additive checksum and its power field.
//!
//! A packet is eight bytes. Byte 7 is the sum of bytes 0 to 6, modulo 256.
//! Bytes 4 and 5 hold a 16-bit mantissa, high byte first, and byte 6 holds an
//! exponent, stored one higher than its value.
use vstd::prelude::*;
use vstd::arithmetic::power2::{lemma2_to64, lemma_pow2_unfold, pow2};

verus! {

/// The sum of the bytes of `s`.
pub open spec fn sum_bytes(s: Seq<u8>) -> int
    decreases s.len(),
{
    if s.len() == 0 {
        0
    } else {
        sum_bytes(s.drop_last()) + s.last()
    }
}

/// The checksum that a packet ought to carry in its last byte: the sum of the
/// seven bytes before it, modulo 256.
pub open spec fn checksum_of(packet: Seq<u8>) -> u8 {
    (sum_bytes(packet.subrange(0, 7)) % 256) as u8
}

/// The packet carries the checksum of its first seven bytes.
pub open spec fn checksum_ok(packet: Seq<u8>) -> bool {
    packet[7] == checksum_of(packet)
}

/// Computes the checksum of the first seven bytes of `packet`.
pub fn sum_checksum(packet: &[u8; 8]) -> (sum: u8)
    ensures
        sum == checksum_of(packet@),
{
    let mut acc: u8 = 0;
    let mut i: usize = 0;
    while i < 7
        invariant
            i <= 7,
            acc == sum_bytes(packet@.subrange(0, i as int)) % 256,
        decreases 7 - i,
    {
        assert(packet@.subrange(0, i + 1).drop_last() == packet@.subrange(0, i as int));
        acc = acc.wrapping_add(packet[i]);
        i += 1;
    }
    acc
}

/// The power field of a packet, as the meter sends it.
///
/// The reading in kilowatts is `0.4799 * (mantissa / 65536) * scale`, where
/// `scale` is `2 << exponent`, which is 1 shifted left by `exponent + 1` bits.
/// [`PowerWord::scale_shift`] gives that number of bits for every exponent
/// that is not negative, and [`PowerWord::scale`] the scale itself where 128
/// bits hold it.
#[derive(Debug, Clone, Copy, PartialEq, Eq)]
pub struct PowerWord {
    /// Bytes 4 and 5 of the packet, as one number, high byte first.
    pub mantissa: u16,
    /// Byte 6 of the packet, less one: from -1 to 254.
    pub exponent: i32,
}

/// The greatest exponent whose scale fits in 128 bits.
pub const MAX_SCALE_EXPONENT: i32 = 126;

/// The power field of `packet`.
pub open spec fn power_word_of(packet: Seq<u8>) -> PowerWord {
    PowerWord { mantissa: (packet[4] * 256 + packet[5]) as u16, exponent: (packet[6] - 1) as i32 }
}

/// The number 2 shifted left by `exponent` bits, where that is a shift by a
/// number of bits from 0 to 126; nothing for other exponents.
pub open spec fn scale_of(exponent: i32) -> Option<u128> {
    if 0 <= exponent <= MAX_SCALE_EXPONENT {
        Some(2u128 << (exponent as u128))
    } else {
        None
    }
}

/// The number of bits by which 1 is shifted left to give the scale
/// `2 << exponent`: `exponent + 1`. There is none for a negative exponent,
/// which names no shift.
pub open spec fn scale_shift_of(exponent: i32) -> Option<u32> {
    if 0 <= exponent {
        Some((exponent + 1) as u32)
    } else {
        None
    }
}

proof fn lemma_shift_one_more(exponent: u128)
    by (bit_vector)
    requires
        exponent < 126,
    ensures
        2u128 << ((exponent + 1) as u128) == 2 * (2u128 << exponent),
{
}

/// The scale is a power of two: `2 << exponent` is 2 to the power of
/// `exponent + 1`, the number that [`scale_shift_of`] gives.
pub proof fn lemma_scale_is_power_of_two(exponent: i32)
    requires
        0 <= exponent <= MAX_SCALE_EXPONENT,
    ensures
        scale_shift_of(exponent) == Some((exponent + 1) as u32),
        scale_of(exponent) == Some(pow2((exponent + 1) as nat) as u128),
        pow2((exponent + 1) as nat) <= u128::MAX,
    decreases exponent,
{
    if exponent == 0 {
        lemma2_to64();
        assert(2u128 << 0u128 == 2u128) by (bit_vector);
    } else {
        lemma_pow2_unfold((exponent + 1) as nat);
        lemma_scale_is_power_of_two((exponent - 1) as i32);
        lemma_shift_one_more((exponent - 1) as u128);
    }
}

impl PowerWord {
    /// The number of bits by which 1 is shifted left to give the scale:
    /// `exponent + 1`, for every exponent that is not negative.
    pub fn scale_shift(&self) -> (shift: Option<u32>)
        ensures
            shift == scale_shift_of(self.exponent),
            shift is Some <==> self.exponent >= 0,
    {
        if self.exponent >= 0 {
            Some(self.exponent as u32 + 1)
        } else {
            None
        }
    }

    /// The factor `2 << exponent` by which the mantissa's ratio is scaled,
    /// where 128 bits hold it.
    pub fn scale(&self) -> (scale: Option<u128>)
        ensures
            scale == scale_of(self.exponent),
            scale is Some <==> 0 <= self.exponent <= MAX_SCALE_EXPONENT,
    {
        if 0 <= self.exponent && self.exponent <= MAX_SCALE_EXPONENT {
            let shift: u32 = self.exponent as u32;
            assert(2u128 << (shift as u128) == 2u128 << shift) by (bit_vector);
            Some(2u128 << shift)
        } else {
            None
        }
    }
}

/// Reads the power field of `packet`.
pub fn decode_word_from_packet(packet: &[u8; 8]) -> (word: PowerWord)
    ensures
        word == power_word_of(packet@),
        word.mantissa == packet[4] * 256 + packet[5],
        word.exponent == packet[6] - 1,
{
    let mantissa: u16 = (packet[4] as u16) * 256 + (packet[5] as u16);
    let exponent: i32 = (packet[6] as i32) - 1;
    PowerWord { mantissa, exponent }
}

} // verus!
