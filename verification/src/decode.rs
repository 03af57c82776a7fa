//! The decoding pipeline: from a raw capture to a checked packet and its
//! power field.
use vstd::prelude::*;
use crate::bits::{bit_value, bits_of};
use crate::packet::{
    checksum_of,
    checksum_ok,
    decode_word_from_packet,
    power_word_of,
    sum_bytes,
    sum_checksum,
    PowerWord,
};
use crate::preamble::{find_preamble, lemma_preamble_bounds, preamble_of, MIN_QUALITY};
use crate::symbols::{demodulate_symbols, lemma_packet_bounds, packet_from, PACKET_BITS};
use crate::sync::{find_sync, lemma_sync_bounds, sync_of};

verus! {

/// The number of bytes that a capture buffer holds.
pub const CAPTURE_BYTES: usize = 128;

/// The greatest quality of a decoded packet: a capture of 1024 bits in which
/// the preamble repeats more often has no room left for the sync marker's 16
/// bits and the 128 bits that 64 symbols take at least.
pub const MAX_QUALITY: u8 = 220;

/// A decoded packet.
#[derive(Debug, Clone, Copy, PartialEq, Eq)]
pub struct DecodeResult {
    /// The power field of the packet.
    pub power: PowerWord,
    /// The packet itself; its checksum holds.
    pub packet: [u8; 8],
    /// How many repetitions of the preamble pattern were found in a row. It is
    /// a sign of the capture's quality, at least 8, and at most 220: more
    /// repetitions leave no room for a packet in a capture of 128 bytes.
    pub quality_metric: u8,
}

/// The stage at which a capture could not be decoded.
#[derive(Debug, Clone, Copy, PartialEq, Eq)]
pub enum DecodeError {
    /// The count of valid bytes is zero or more than the buffer holds.
    NotEnoughData,
    /// No preamble starts anywhere in the capture.
    PreambleNotFound,
    /// No sync marker stands at or after the end of the preamble.
    SyncNotFound,
    /// Fewer than 64 symbols follow the sync marker.
    InsufficientSymbols,
    /// The packet's last byte, `actual`, is not the checksum of the bytes
    /// before it, `expected`.
    ChecksumMismatch { expected: u8, actual: u8 },
}

/// What decoding yields for the first `read_bytes` bytes of `buf`.
///
/// The stages run in order, each from the offset at which the one before it
/// ended, and the first that finds nothing decides the error.
pub open spec fn decode_outcome(buf: Seq<u8>, read_bytes: int) -> Result<
    DecodeResult,
    DecodeError,
> {
    if read_bytes <= 0 || read_bytes > CAPTURE_BYTES || read_bytes > buf.len() {
        Err(DecodeError::NotEnoughData)
    } else {
        let bits = bits_of(buf, 8 * read_bytes);
        match preamble_of(bits) {
            None => Err(DecodeError::PreambleNotFound),
            Some((preamble_end, quality)) => match sync_of(bits, preamble_end) {
                None => Err(DecodeError::SyncNotFound),
                Some(sync_end) => match packet_from(bits, sync_end) {
                    None => Err(DecodeError::InsufficientSymbols),
                    Some((packet, _)) => if checksum_ok(packet@) {
                        Ok(
                            DecodeResult {
                                power: power_word_of(packet@),
                                packet,
                                quality_metric: quality as u8,
                            },
                        )
                    } else {
                        Err(
                            DecodeError::ChecksumMismatch {
                                expected: checksum_of(packet@),
                                actual: packet[7],
                            },
                        )
                    },
                },
            },
        }
    }
}

/// Decodes the first `read_bytes` bytes of the capture `rx_buf`.
///
/// Bytes past `read_bytes` are not looked at.
pub fn decode_power(rx_buf: &[u8; 128], read_bytes: usize) -> (result: Result<
    DecodeResult,
    DecodeError,
>)
    ensures
        result == decode_outcome(rx_buf@, read_bytes as int),
        (read_bytes == 0 || read_bytes > CAPTURE_BYTES) <==> result == Err::<
            DecodeResult,
            DecodeError,
        >(DecodeError::NotEnoughData),
        result matches Ok(decoded) ==> {
            &&& sum_bytes(decoded.packet@.subrange(0, 7)) % 256 == decoded.packet[7]
            &&& MIN_QUALITY <= decoded.quality_metric <= MAX_QUALITY
            &&& decoded.power == power_word_of(decoded.packet@)
            &&& preamble_of(bits_of(rx_buf@, 8 * read_bytes)) matches Some((_, quality))
                && quality == decoded.quality_metric
        },
        result matches Err(DecodeError::ChecksumMismatch { expected, actual }) ==> expected
            != actual,
{
    if read_bytes == 0 || read_bytes > CAPTURE_BYTES {
        return Err(DecodeError::NotEnoughData);
    }
    let bit_len: usize = read_bytes * 8;
    let buf: &[u8] = rx_buf.as_slice();
    let (preamble_end, quality) = match find_preamble(buf, bit_len) {
        Some(found) => found,
        None => {
            return Err(DecodeError::PreambleNotFound);
        },
    };
    let sync_end = match find_sync(buf, preamble_end, bit_len) {
        Some(found) => found,
        None => {
            return Err(DecodeError::SyncNotFound);
        },
    };
    let packet = match demodulate_symbols(buf, sync_end, bit_len) {
        Some((packet, _)) => packet,
        None => {
            return Err(DecodeError::InsufficientSymbols);
        },
    };
    assert(4 * quality + 16 + 2 * PACKET_BITS <= bit_len);
    let quality_metric: u8 = quality as u8;
    let expected_checksum = sum_checksum(&packet);
    if expected_checksum != packet[7] {
        return Err(
            DecodeError::ChecksumMismatch { expected: expected_checksum, actual: packet[7] },
        );
    }
    let power = decode_word_from_packet(&packet);
    Ok(DecodeResult { power, packet, quality_metric })
}

/// Decoding is a function of the valid bytes alone: two captures that hold
/// the same first `read_bytes` bytes decode to the same result, whatever
/// lies behind them; and so do two runs on one capture.
pub proof fn lemma_decode_deterministic(
    first_buf: Seq<u8>,
    second_buf: Seq<u8>,
    read_bytes: int,
    first: Result<DecodeResult, DecodeError>,
    second: Result<DecodeResult, DecodeError>,
)
    requires
        first_buf.len() == second_buf.len(),
        forall|i: int| 0 <= i < read_bytes && i < first_buf.len() ==> first_buf[i] == second_buf[i],
        first == decode_outcome(first_buf, read_bytes),
        second == decode_outcome(second_buf, read_bytes),
    ensures
        first == second,
{
    if 0 < read_bytes <= first_buf.len() && read_bytes <= CAPTURE_BYTES {
        assert forall|i: int| 0 <= i < 8 * read_bytes implies bit_value(first_buf, i) == bit_value(
            second_buf,
            i,
        ) by {
            assert(first_buf[i / 8] == second_buf[i / 8]);
        }
        assert(bits_of(first_buf, 8 * read_bytes) =~= bits_of(second_buf, 8 * read_bytes));
    }
}

/// Every decoded packet was checked: its last byte is the sum of the seven
/// bytes before it, modulo 256. Its quality is the number of repetitions of
/// the preamble that was found, which is at least 8 and at most 220, and its
/// power field is read from the packet itself.
pub proof fn lemma_decoded_packet_is_checked(buf: Seq<u8>, read_bytes: int)
    requires
        decode_outcome(buf, read_bytes) is Ok,
    ensures
        decode_outcome(buf, read_bytes) matches Ok(decoded) && {
            &&& sum_bytes(decoded.packet@.subrange(0, 7)) % 256 == decoded.packet[7]
            &&& MIN_QUALITY <= decoded.quality_metric <= MAX_QUALITY
            &&& decoded.power == power_word_of(decoded.packet@)
            &&& preamble_of(bits_of(buf, 8 * read_bytes)) matches Some((_, quality))
                && quality == decoded.quality_metric
        },
{
    lemma_stages_advance(bits_of(buf, 8 * read_bytes));
}

/// The stages consume the capture in order: where a packet is read, the
/// preamble's repetitions end at or before the start of the sync marker, the
/// marker ends at or before the first symbol, and the last symbol ends inside
/// the capture.
pub proof fn lemma_stages_advance(bits: Seq<bool>)
    requires
        preamble_of(bits) matches Some((preamble_end, _)) && sync_of(bits, preamble_end)
            matches Some(sync_end) && packet_from(bits, sync_end) is Some,
    ensures
        preamble_of(bits) matches Some((preamble_end, quality)) && sync_of(bits, preamble_end)
            matches Some(sync_end) && packet_from(bits, sync_end) matches Some((_, end))
            && MIN_QUALITY <= quality && 4 * quality <= preamble_end && preamble_end + 16
            <= sync_end && sync_end + 2 * PACKET_BITS <= end <= bits.len(),
{
    lemma_preamble_bounds(bits);
    let preamble_end = preamble_of(bits).unwrap().0;
    lemma_sync_bounds(bits, preamble_end);
    let sync_end = sync_of(bits, preamble_end).unwrap();
    lemma_packet_bounds(bits, sync_end);
}

/// A capture that ends less than 128 bits after its sync marker is cut
/// short: a symbol takes at least two bits, so 64 of them do not fit.
pub proof fn lemma_truncated_packet(buf: Seq<u8>, read_bytes: int)
    requires
        0 < read_bytes <= buf.len(),
        read_bytes <= CAPTURE_BYTES,
        preamble_of(bits_of(buf, 8 * read_bytes)) matches Some((preamble_end, _)) && sync_of(
            bits_of(buf, 8 * read_bytes),
            preamble_end,
        ) matches Some(sync_end) && 8 * read_bytes - sync_end < 2 * PACKET_BITS,
    ensures
        decode_outcome(buf, read_bytes) == Err::<DecodeResult, DecodeError>(
            DecodeError::InsufficientSymbols,
        ),
{
    let bits = bits_of(buf, 8 * read_bytes);
    lemma_preamble_bounds(bits);
    let preamble_end = preamble_of(bits).unwrap().0;
    lemma_sync_bounds(bits, preamble_end);
    let sync_end = sync_of(bits, preamble_end).unwrap();
    if packet_from(bits, sync_end) is Some {
        lemma_packet_bounds(bits, sync_end);
    }
}

} // verus!
