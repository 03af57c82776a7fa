//! Each stage of the decoder on small hand-made captures.
use meter_decode::bits::bit_at;
use meter_decode::packet::{decode_word_from_packet, sum_checksum, PowerWord};
use meter_decode::preamble::{find_preamble, matches_1100};
use meter_decode::symbols::demodulate_symbols;
use meter_decode::sync::find_sync;

/// A capture in which each data bit `1` is sent as `0,1,1` and each data bit
/// `0` as `0,0,1`.
fn encode(packet: &[u8]) -> Vec<u8> {
    let mut bits: Vec<u8> = Vec::new();
    for byte in packet {
        for k in 0..8 {
            if (byte >> (7 - k)) & 1 == 1 {
                bits.extend_from_slice(&[0, 1, 1]);
            } else {
                bits.extend_from_slice(&[0, 0, 1]);
            }
        }
    }
    let mut bytes = vec![0u8; (bits.len() + 7) / 8];
    for (i, bit) in bits.iter().enumerate() {
        bytes[i / 8] |= bit << (7 - i % 8);
    }
    bytes
}

#[test]
fn bits_are_numbered_from_the_high_end_of_each_byte() {
    let buf = [0x80u8, 0x01, 0xA5];
    assert_eq!(bit_at(&buf, 0), 1);
    assert_eq!(bit_at(&buf, 1), 0);
    assert_eq!(bit_at(&buf, 7), 0);
    assert_eq!(bit_at(&buf, 8), 0);
    assert_eq!(bit_at(&buf, 14), 0);
    assert_eq!(bit_at(&buf, 15), 1);
    let a5: Vec<u8> = (16..24).map(|i| bit_at(&buf, i)).collect();
    assert_eq!(a5, vec![1, 0, 1, 0, 0, 1, 0, 1]);
}

#[test]
fn pattern_is_matched_at_any_phase() {
    let buf = [0xCCu8, 0x66, 0x33];
    assert!(matches_1100(&buf, 0));
    assert!(matches_1100(&buf, 4));
    assert!(!matches_1100(&buf, 1));
    assert!(!matches_1100(&buf, 2));
    assert!(!matches_1100(&buf, 3));
    assert!(matches_1100(&buf, 9));
    assert!(!matches_1100(&buf, 8));
    assert!(matches_1100(&buf, 18));
    assert!(!matches_1100(&buf, 20));
}

#[test]
fn pattern_with_one_wrong_bit_is_not_matched() {
    assert!(matches_1100(&[0b1100_0000], 0));
    assert!(!matches_1100(&[0b0100_0000], 0));
    assert!(!matches_1100(&[0b1000_0000], 0));
    assert!(!matches_1100(&[0b1110_0000], 0));
    assert!(!matches_1100(&[0b1101_0000], 0));
}

#[test]
fn eight_repetitions_make_a_preamble() {
    assert_eq!(find_preamble(&[0xCC; 4], 32), Some((32, 8)));
}

#[test]
fn seven_repetitions_make_no_preamble() {
    assert_eq!(find_preamble(&[0xCC, 0xCC, 0xCC, 0xC0], 32), None);
    assert_eq!(find_preamble(&[0xCC; 3], 24), None);
}

#[test]
fn preamble_is_found_at_a_shifted_phase() {
    assert_eq!(find_preamble(&[0x66; 5], 40), Some((37, 9)));
    assert_eq!(find_preamble(&[0x66; 4], 32), None);
}

#[test]
fn preamble_is_found_behind_other_bits() {
    assert_eq!(find_preamble(&[0x00, 0xCC, 0xCC, 0xCC, 0xCC, 0xCD], 48), Some((44, 9)));
}

#[test]
fn first_of_two_runs_that_is_long_enough_is_taken() {
    let buf = [0xCC, 0xCC, 0xCC, 0xC3, 0x33, 0x33, 0x33, 0x33, 0x00];
    assert_eq!(find_preamble(&buf, 72), Some((66, 9)));
}

#[test]
fn preamble_search_stops_at_the_bit_length() {
    assert_eq!(find_preamble(&[0xCC; 5], 36), Some((36, 9)));
    assert_eq!(find_preamble(&[0xCC; 5], 35), Some((32, 8)));
    assert_eq!(find_preamble(&[0xCC; 5], 31), None);
    assert_eq!(find_preamble(&[0xCC; 5], 0), None);
}

#[test]
fn quality_counts_every_repetition() {
    assert_eq!(find_preamble(&[0xCC; 64], 512), Some((512, 128)));
    assert_eq!(find_preamble(&[0xCC; 128], 1024), Some((1024, 256)));
    assert_eq!(find_preamble(&[0xCC; 200], 1600), Some((1600, 400)));
}

#[test]
fn preamble_starts_four_bits_times_the_quality_before_its_end() {
    let cases: [(&[u8], usize, usize); 5] = [
        (&[0xCC; 4], 32, 0),
        (&[0x66; 5], 40, 1),
        (&[0x00, 0xCC, 0xCC, 0xCC, 0xCC, 0xCD], 48, 8),
        (&[0xCC, 0xCC, 0xCC, 0xC3, 0x33, 0x33, 0x33, 0x33, 0x00], 72, 30),
        (&[0xCC; 128], 1024, 0),
    ];
    for (buf, bit_len, start) in cases {
        let (end, quality) = find_preamble(buf, bit_len).expect("a preamble");
        assert_eq!(end - 4 * quality, start);
    }
}

#[test]
fn sync_is_sixteen_ones() {
    assert_eq!(find_sync(&[0xFF, 0xFF], 0, 16), Some(16));
    assert_eq!(find_sync(&[0x7F, 0xFF, 0x80], 0, 24), Some(17));
    assert_eq!(find_sync(&[0x7F, 0xFF, 0x00], 0, 24), None);
    assert_eq!(find_sync(&[0xFF, 0xFE, 0xFF, 0xFF], 0, 32), Some(32));
}

#[test]
fn sync_is_looked_for_from_the_start_offset_on() {
    assert_eq!(find_sync(&[0xFF; 3], 0, 24), Some(16));
    assert_eq!(find_sync(&[0xFF; 3], 5, 24), Some(21));
    assert_eq!(find_sync(&[0xFF; 3], 8, 24), Some(24));
    assert_eq!(find_sync(&[0x7F, 0xFF, 0x80], 1, 24), Some(17));
    assert_eq!(find_sync(&[0x7F, 0xFF, 0x80], 2, 24), None);
}

#[test]
fn sync_needs_sixteen_bits_after_the_start_offset() {
    assert_eq!(find_sync(&[0xFF; 3], 9, 24), None);
    assert_eq!(find_sync(&[0xFF; 3], 24, 24), None);
    assert_eq!(find_sync(&[0xFF; 3], 100, 24), None);
    assert_eq!(find_sync(&[0xFF; 3], 0, 15), None);
    assert_eq!(find_sync(&[0xFF, 0xFF], 1, 16), None);
}

#[test]
fn equal_runs_read_as_zero() {
    assert_eq!(demodulate_symbols(&[0x55; 16], 0, 128), Some(([0x00; 8], 128)));
    assert_eq!(demodulate_symbols(&[0x33; 32], 0, 256), Some(([0x00; 8], 256)));
}

#[test]
fn longer_run_of_ones_reads_as_one() {
    assert_eq!(demodulate_symbols(&[0x6D, 0xB6, 0xDB].repeat(8), 0, 192), Some(([0xFF; 8], 192)));
    assert_eq!(demodulate_symbols(&[0x77; 32], 0, 256), Some(([0xFF; 8], 256)));
}

#[test]
fn longer_run_of_zeros_reads_as_zero() {
    assert_eq!(demodulate_symbols(&[0x11; 32], 0, 256), Some(([0x00; 8], 256)));
}

#[test]
fn symbols_are_packed_high_bit_first() {
    let packet = [0x12, 0x34, 0x56, 0x78, 0x9A, 0xBC, 0x03, 0x6D];
    let buf = encode(&packet);
    assert_eq!(
        buf,
        vec![
            0x24, 0xB2, 0x59, 0x25, 0xB2, 0xC9, 0x2C, 0xB2, 0xD9, 0x2D, 0xB6, 0x49, 0x64, 0xB6,
            0x59, 0x65, 0xB6, 0xC9, 0x24, 0x92, 0x5B, 0x2D, 0x96, 0xCB,
        ]
    );
    assert_eq!(demodulate_symbols(&buf, 0, 192), Some((packet, 192)));
}

#[test]
fn demodulation_stops_after_the_last_symbol() {
    let mut buf = [0x6D, 0xB6, 0xDB].repeat(8);
    buf.push(0x00);
    assert_eq!(demodulate_symbols(&buf, 0, 200), Some(([0xFF; 8], 192)));
}

#[test]
fn sixty_three_symbols_are_too_few() {
    assert_eq!(demodulate_symbols(&[0x55; 16], 0, 127), None);
    assert_eq!(demodulate_symbols(&[0x55; 16], 0, 126), None);
    assert_eq!(demodulate_symbols(&[0x55; 16], 2, 128), None);
}

#[test]
fn symbol_must_start_with_a_zero() {
    assert_eq!(demodulate_symbols(&[0x55; 17], 1, 136), None);
    assert_eq!(demodulate_symbols(&[0xFF; 32], 0, 256), None);
}

#[test]
fn demodulation_from_the_end_of_the_capture_finds_nothing() {
    assert_eq!(demodulate_symbols(&[0x55; 16], 128, 128), None);
    assert_eq!(demodulate_symbols(&[0x55; 16], 500, 128), None);
    assert_eq!(demodulate_symbols(&[0x00; 16], 0, 128), None);
}

#[test]
fn checksum_is_the_sum_of_the_first_seven_bytes() {
    assert_eq!(sum_checksum(&[1, 2, 3, 4, 5, 6, 7, 0]), 28);
    assert_eq!(sum_checksum(&[1, 2, 3, 4, 5, 6, 7, 200]), 28);
    assert_eq!(sum_checksum(&[0x09, 0x9B, 0x2E, 0x40, 0x7E, 0xB8, 0x01, 0x49]), 0x49);
    assert_eq!(sum_checksum(&[0; 8]), 0);
}

#[test]
fn checksum_wraps_at_256() {
    assert_eq!(sum_checksum(&[0xFF, 0x01, 0, 0, 0, 0, 0, 0]), 0);
    assert_eq!(sum_checksum(&[0xFF, 0xFF, 0, 0, 0, 0, 0, 0]), 0xFE);
    assert_eq!(sum_checksum(&[0xFF; 8]), 0xF9);
}

#[test]
fn power_field_is_read_from_bytes_four_to_six() {
    let word = decode_word_from_packet(&[0x09, 0x9B, 0x2E, 0x40, 0x7E, 0xB8, 0x01, 0x49]);
    assert_eq!(word, PowerWord { mantissa: 0x7EB8, exponent: 0 });
    let word = decode_word_from_packet(&[0, 0, 0, 0, 0x01, 0x02, 0x10, 0]);
    assert_eq!(word, PowerWord { mantissa: 258, exponent: 15 });
}

#[test]
fn power_field_takes_every_byte_value() {
    let word = decode_word_from_packet(&[0xAA, 0xAA, 0xAA, 0xAA, 0xFF, 0xFF, 0xFF, 0xAA]);
    assert_eq!(word, PowerWord { mantissa: 65535, exponent: 254 });
    let word = decode_word_from_packet(&[0xAA, 0xAA, 0xAA, 0xAA, 0x00, 0x00, 0x00, 0xAA]);
    assert_eq!(word, PowerWord { mantissa: 0, exponent: -1 });
}

#[test]
fn scale_is_two_shifted_by_the_exponent() {
    assert_eq!(PowerWord { mantissa: 1, exponent: 0 }.scale(), Some(2));
    assert_eq!(PowerWord { mantissa: 1, exponent: 1 }.scale(), Some(4));
    assert_eq!(PowerWord { mantissa: 1, exponent: 15 }.scale(), Some(65536));
    assert_eq!(PowerWord { mantissa: 1, exponent: 31 }.scale(), Some(1u128 << 32));
    assert_eq!(PowerWord { mantissa: 1, exponent: 126 }.scale(), Some(1u128 << 127));
}

#[test]
fn scale_shift_is_one_more_than_the_exponent() {
    assert_eq!(PowerWord { mantissa: 1, exponent: 0 }.scale_shift(), Some(1));
    assert_eq!(PowerWord { mantissa: 1, exponent: 1 }.scale_shift(), Some(2));
    assert_eq!(PowerWord { mantissa: 1, exponent: 126 }.scale_shift(), Some(127));
    assert_eq!(PowerWord { mantissa: 1, exponent: 127 }.scale_shift(), Some(128));
    assert_eq!(PowerWord { mantissa: 1, exponent: 254 }.scale_shift(), Some(255));
    assert_eq!(PowerWord { mantissa: 1, exponent: i32::MAX }.scale_shift(), Some(1 << 31));
}

#[test]
fn scale_shift_is_absent_for_a_negative_exponent() {
    assert_eq!(PowerWord { mantissa: 1, exponent: -1 }.scale_shift(), None);
    assert_eq!(PowerWord { mantissa: 1, exponent: i32::MIN }.scale_shift(), None);
}

#[test]
fn scale_is_one_shifted_by_the_scale_shift() {
    for exponent in 0..=126 {
        let word = PowerWord { mantissa: 1, exponent };
        let shift = word.scale_shift().expect("a shift");
        assert_eq!(word.scale(), Some(1u128 << shift));
    }
}

#[test]
fn every_decoded_exponent_but_the_lowest_has_a_scale_shift() {
    for byte in 0..=255u8 {
        let word = decode_word_from_packet(&[0, 0, 0, 0, 0, 0, byte, 0]);
        if byte == 0 {
            assert_eq!(word.scale_shift(), None);
        } else {
            assert_eq!(word.scale_shift(), Some(byte as u32));
        }
    }
}

#[test]
fn scale_is_absent_outside_the_shift_range() {
    assert_eq!(PowerWord { mantissa: 1, exponent: -1 }.scale(), None);
    assert_eq!(PowerWord { mantissa: 1, exponent: 127 }.scale(), None);
    assert_eq!(PowerWord { mantissa: 1, exponent: 254 }.scale(), None);
}
