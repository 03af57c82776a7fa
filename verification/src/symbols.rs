//! Symbol demodulator: reads pulse-width coded symbols into a packet.
//!
//! A symbol is a run of `0` bits followed by a run of `1` bits. It stands for
//! the data bit `1` where the run of ones is the longer one, and for `0`
//! otherwise.
use vstd::prelude::*;
use crate::bits::{bit_as_byte, bit_at, bit_value, bits_of, byte_bit};

verus! {

/// The number of bytes in a packet.
pub const PACKET_BYTES: usize = 8;

/// The number of symbols in a packet.
pub const PACKET_BITS: usize = 64;

/// The length of the longest run of bits equal to `value` that starts at `i`.
pub open spec fn run_len(bits: Seq<bool>, i: int, value: bool) -> nat
    decreases bits.len() - i,
{
    if 0 <= i < bits.len() && bits[i] == value {
        1 + run_len(bits, i + 1, value)
    } else {
        0
    }
}

/// The symbol that starts at `i`: its data bit and the offset right after it.
/// There is none where either of its two runs is empty.
pub open spec fn symbol_at(bits: Seq<bool>, i: int) -> Option<(bool, int)> {
    let zeros = run_len(bits, i, false);
    let ones = run_len(bits, i + zeros, true);
    if zeros == 0 || ones == 0 {
        None
    } else {
        Some((zeros < ones, i + zeros + ones))
    }
}

/// The first `n` symbols from `i` on: their data bits in order, and the offset
/// right after the last of them. There is no result where the capture holds
/// fewer than `n` symbols from `i` on.
pub open spec fn symbols_from(bits: Seq<bool>, i: int, n: nat) -> Option<(Seq<bool>, int)>
    decreases n,
{
    if n == 0 {
        Some((Seq::empty(), i))
    } else {
        match symbols_from(bits, i, (n - 1) as nat) {
            None => None,
            Some((data, next)) => match symbol_at(bits, next) {
                None => None,
                Some((bit, end)) => Some((data.push(bit), end)),
            },
        }
    }
}

/// The byte whose bits, most significant first, are `data[at]` to
/// `data[at + 7]`.
pub open spec fn byte_of(data: Seq<bool>, at: int) -> u8 {
    (128 * bit_as_byte(data[at]) + 64 * bit_as_byte(data[at + 1]) + 32 * bit_as_byte(data[at + 2])
        + 16 * bit_as_byte(data[at + 3]) + 8 * bit_as_byte(data[at + 4]) + 4 * bit_as_byte(
        data[at + 5],
    ) + 2 * bit_as_byte(data[at + 6]) + bit_as_byte(data[at + 7])) as u8
}

/// The packet that 64 data bits make, eight to a byte, most significant bit
/// first.
pub open spec fn pack(data: Seq<bool>) -> [u8; 8] {
    [
        byte_of(data, 0),
        byte_of(data, 8),
        byte_of(data, 16),
        byte_of(data, 24),
        byte_of(data, 32),
        byte_of(data, 40),
        byte_of(data, 48),
        byte_of(data, 56),
    ]
}

/// What the demodulator reads from `i` on: the packet made of the first 64
/// symbols and the offset right after them, or nothing where the capture
/// holds fewer.
pub open spec fn packet_from(bits: Seq<bool>, i: int) -> Option<([u8; 8], int)> {
    match symbols_from(bits, i, PACKET_BITS as nat) {
        None => None,
        Some((data, end)) => Some((pack(data), end)),
    }
}

/// A run that starts inside the capture ends inside it.
pub proof fn lemma_run_len_fits(bits: Seq<bool>, i: int, value: bool)
    requires
        0 <= i,
    ensures
        run_len(bits, i, value) > 0 ==> i + run_len(bits, i, value) <= bits.len(),
    decreases bits.len() - i,
{
    if 0 <= i < bits.len() && bits[i] == value {
        lemma_run_len_fits(bits, i + 1, value);
    }
}

/// Where there are not `n` symbols, there are not more than `n` either.
pub proof fn lemma_symbols_none_extends(bits: Seq<bool>, i: int, n: nat, m: nat)
    requires
        n <= m,
        symbols_from(bits, i, n) is None,
    ensures
        symbols_from(bits, i, m) is None,
    decreases m,
{
    if n < m {
        lemma_symbols_none_extends(bits, i, n, (m - 1) as nat);
    }
}

/// `n` symbols are `n` data bits, take at least two bits of the capture each,
/// and end inside the capture.
pub proof fn lemma_symbols_extent(bits: Seq<bool>, i: int, n: nat)
    requires
        0 <= i,
        symbols_from(bits, i, n) is Some,
    ensures
        symbols_from(bits, i, n) matches Some((data, end)) && data.len() == n && i + 2 * n <= end
            && (n > 0 ==> end <= bits.len()),
    decreases n,
{
    if n > 0 {
        lemma_symbols_extent(bits, i, (n - 1) as nat);
        let next = symbols_from(bits, i, (n - 1) as nat).unwrap().1;
        let zeros = run_len(bits, next, false);
        lemma_run_len_fits(bits, next, false);
        lemma_run_len_fits(bits, next + zeros, true);
    }
}

/// A packet that was read ends inside the capture, at least 128 bits after
/// the offset from which it was read.
pub proof fn lemma_packet_bounds(bits: Seq<bool>, i: int)
    requires
        0 <= i,
        packet_from(bits, i) is Some,
    ensures
        packet_from(bits, i) matches Some((_, end)) && i + 2 * PACKET_BITS <= end <= bits.len(),
{
    lemma_symbols_extent(bits, i, PACKET_BITS as nat);
}

/// Bit `i` of a packet that holds `count` data bits so far. A byte that is not
/// full yet holds its bits at its low end.
spec fn packed_bit(packet: Seq<u8>, count: int, i: int) -> bool {
    let filled = if count - 8 * (i / 8) >= 8 {
        8
    } else {
        count - 8 * (i / 8)
    };
    (packet[i / 8] >> ((filled - 1 - i % 8) as u8)) & 1 == 1
}

proof fn lemma_push_bit_newest(byte: u8, bit: u8)
    by (bit_vector)
    requires
        bit <= 1,
    ensures
        (((byte << 1) | bit) >> 0) & 1 == bit,
{
}

proof fn lemma_push_bit_older(byte: u8, bit: u8, k: u8)
    by (bit_vector)
    requires
        bit <= 1,
        1 <= k < 8,
    ensures
        (((byte << 1) | bit) >> k) & 1 == (byte >> ((k - 1) as u8)) & 1,
{
}

proof fn lemma_byte_from_bits(byte: u8)
    by (bit_vector)
    ensures
        byte == 128 * ((byte >> 7) & 1) + 64 * ((byte >> 6) & 1) + 32 * ((byte >> 5) & 1) + 16 * ((
        byte >> 4) & 1) + 8 * ((byte >> 3) & 1) + 4 * ((byte >> 2) & 1) + 2 * ((byte >> 1) & 1) + ((
        byte >> 0) & 1),
        (byte >> 7) & 1 <= 1,
        (byte >> 6) & 1 <= 1,
        (byte >> 5) & 1 <= 1,
        (byte >> 4) & 1 <= 1,
        (byte >> 3) & 1 <= 1,
        (byte >> 2) & 1 <= 1,
        (byte >> 1) & 1 <= 1,
        (byte >> 0) & 1 <= 1,
{
}

proof fn lemma_bits_of_byte(b0: u8, b1: u8, b2: u8, b3: u8, b4: u8, b5: u8, b6: u8, b7: u8)
    by (bit_vector)
    requires
        b0 <= 1,
        b1 <= 1,
        b2 <= 1,
        b3 <= 1,
        b4 <= 1,
        b5 <= 1,
        b6 <= 1,
        b7 <= 1,
    ensures
        ({
            let byte = (128 * b0 + 64 * b1 + 32 * b2 + 16 * b3 + 8 * b4 + 4 * b5 + 2 * b6
                + b7) as u8;
            &&& (byte >> 7) & 1 == b0
            &&& (byte >> 6) & 1 == b1
            &&& (byte >> 5) & 1 == b2
            &&& (byte >> 4) & 1 == b3
            &&& (byte >> 3) & 1 == b4
            &&& (byte >> 2) & 1 == b5
            &&& (byte >> 1) & 1 == b6
            &&& (byte >> 0) & 1 == b7
        }),
{
}

/// A byte is the byte that its eight bits make.
pub proof fn lemma_byte_of_bits(byte: u8, data: Seq<bool>, at: int)
    requires
        0 <= at,
        at + 8 <= data.len(),
        forall|k: int| 0 <= k < 8 ==> data[at + k] == #[trigger] byte_bit(byte, k),
    ensures
        byte == byte_of(data, at),
{
    lemma_byte_from_bits(byte);
    assert(data[at + 0] == byte_bit(byte, 0));
    assert(data[at + 1] == byte_bit(byte, 1));
    assert(data[at + 2] == byte_bit(byte, 2));
    assert(data[at + 3] == byte_bit(byte, 3));
    assert(data[at + 4] == byte_bit(byte, 4));
    assert(data[at + 5] == byte_bit(byte, 5));
    assert(data[at + 6] == byte_bit(byte, 6));
    assert(data[at + 7] == byte_bit(byte, 7));
}

/// Bit `k` of the byte made of `data[at]` to `data[at + 7]` is `data[at + k]`.
pub proof fn lemma_byte_of_bit(data: Seq<bool>, at: int, k: int)
    requires
        0 <= k < 8,
    ensures
        byte_bit(byte_of(data, at), k) == data[at + k],
{
    lemma_bits_of_byte(
        bit_as_byte(data[at]),
        bit_as_byte(data[at + 1]),
        bit_as_byte(data[at + 2]),
        bit_as_byte(data[at + 3]),
        bit_as_byte(data[at + 4]),
        bit_as_byte(data[at + 5]),
        bit_as_byte(data[at + 6]),
        bit_as_byte(data[at + 7]),
    );
}

/// Byte `j` of a packet is made of the data bits from `8 * j` on.
pub proof fn lemma_packet_byte(data: Seq<bool>, j: int)
    requires
        0 <= j < PACKET_BYTES,
    ensures
        pack(data)[j] == byte_of(data, 8 * j),
{
    let packet = pack(data);
    assert(packet[0] == byte_of(data, 0));
    assert(packet[1] == byte_of(data, 8));
    assert(packet[2] == byte_of(data, 16));
    assert(packet[3] == byte_of(data, 24));
    assert(packet[4] == byte_of(data, 32));
    assert(packet[5] == byte_of(data, 40));
    assert(packet[6] == byte_of(data, 48));
    assert(packet[7] == byte_of(data, 56));
}

/// The bits of a packet are the data bits that it was made of.
pub proof fn lemma_packet_bits(data: Seq<bool>)
    requires
        data.len() == PACKET_BITS,
    ensures
        bits_of(pack(data)@, PACKET_BITS as int) == data,
{
    let packet = pack(data);
    assert forall|i: int| 0 <= i < 64 implies bit_value(packet@, i) == data[i] by {
        lemma_packet_byte(data, i / 8);
        lemma_byte_of_bit(data, 8 * (i / 8), i % 8);
    }
    assert(bits_of(packet@, PACKET_BITS as int) =~= data);
}

proof fn lemma_packed_step(packet: Seq<u8>, count: int, data: Seq<bool>, bit: u8)
    requires
        packet.len() == 8,
        0 <= count < 64,
        data.len() == count,
        bit <= 1,
        forall|i: int| 0 <= i < count ==> #[trigger] packed_bit(packet, count, i) == data[i],
    ensures
        ({
            let byte = packet[count / 8];
            let next = packet.update(count / 8, (byte << 1) | bit);
            forall|i: int|
                0 <= i < count + 1 ==> #[trigger] packed_bit(next, count + 1, i) == data.push(
                    bit == 1,
                )[i]
        }),
{
    let at = count / 8;
    let byte = packet[at];
    let pushed = (byte << 1) | bit;
    let next = packet.update(at, pushed);
    let filled = count - 8 * at;
    assert forall|i: int| 0 <= i < count + 1 implies #[trigger] packed_bit(next, count + 1, i)
        == data.push(bit == 1)[i] by {
        if i == count {
            lemma_push_bit_newest(byte, bit);
        } else if i / 8 == at {
            assert(packed_bit(packet, count, i) == data[i]);
            let k = (filled - i % 8) as u8;
            lemma_push_bit_older(byte, bit, k);
        } else {
            assert(packed_bit(packet, count, i) == data[i]);
        }
    }
}

proof fn lemma_packed_full(packet: [u8; 8], data: Seq<bool>)
    requires
        data.len() == 64,
        forall|i: int| 0 <= i < 64 ==> #[trigger] packed_bit(packet@, 64, i) == data[i],
    ensures
        packet == pack(data),
{
    assert forall|j: int| 0 <= j < 8 implies packet[j] == byte_of(data, 8 * j) by {
        assert forall|k: int| 0 <= k < 8 implies data[8 * j + k] == #[trigger] byte_bit(
            packet[j],
            k,
        ) by {
            assert(packed_bit(packet@, 64, 8 * j + k) == data[8 * j + k]);
        }
        lemma_byte_of_bits(packet[j], data, 8 * j);
    }
    assert(packet[0] == byte_of(data, 0));
    assert(packet[1] == byte_of(data, 8));
    assert(packet[2] == byte_of(data, 16));
    assert(packet[3] == byte_of(data, 24));
    assert(packet[4] == byte_of(data, 32));
    assert(packet[5] == byte_of(data, 40));
    assert(packet[6] == byte_of(data, 48));
    assert(packet[7] == byte_of(data, 56));
    assert(packet =~= pack(data));
}

/// Counts the bits equal to `value` from `index` on, up to the first bit that
/// differs or the end of the capture.
fn measure_run(buf: &[u8], index: usize, bit_len: usize, value: u8) -> (len: usize)
    requires
        bit_len <= buf@.len() * 8,
        value <= 1,
    ensures
        len == run_len(bits_of(buf@, bit_len as int), index as int, value == 1),
        index < bit_len ==> index + len <= bit_len,
{
    let ghost bits = bits_of(buf@, bit_len as int);
    let mut len: usize = 0;
    if index >= bit_len {
        return 0;
    }
    let mut at: usize = index;
    while at < bit_len && bit_at(buf, at) == value
        invariant
            index <= at <= bit_len <= buf@.len() * 8,
            value <= 1,
            bits == bits_of(buf@, bit_len as int),
            at == index + len,
            run_len(bits, index as int, value == 1) == len + run_len(bits, at as int, value == 1),
        decreases bit_len - at,
    {
        len += 1;
        at += 1;
    }
    len
}

/// Reads 64 symbols from `index` on in the first `bit_len` bits of `buf`, and
/// returns the packet they make together with the offset right after them.
pub fn demodulate_symbols(buf: &[u8], index: usize, bit_len: usize) -> (found: Option<
    ([u8; 8], usize),
>)
    requires
        bit_len <= buf@.len() * 8,
    ensures
        match found {
            Some((packet, end)) => packet_from(bits_of(buf@, bit_len as int), index as int)
                == Some((packet, end as int)),
            None => packet_from(bits_of(buf@, bit_len as int), index as int) is None,
        },
        found matches Some((_, end)) ==> index + 2 * PACKET_BITS <= end <= bit_len,
{
    let ghost bits = bits_of(buf@, bit_len as int);
    let mut at: usize = index;
    let mut packet: [u8; 8] = [0u8; 8];
    let mut bit_count: usize = 0;
    let ghost mut data: Seq<bool> = Seq::empty();
    while at < bit_len && bit_count < PACKET_BITS
        invariant
            bit_len <= buf@.len() * 8,
            bits == bits_of(buf@, bit_len as int),
            bit_count <= PACKET_BITS,
            data.len() == bit_count,
            symbols_from(bits, index as int, bit_count as nat) == Some((data, at as int)),
            index + 2 * bit_count <= at,
            bit_count > 0 ==> at <= bit_len,
            forall|i: int|
                0 <= i < bit_count ==> #[trigger] packed_bit(packet@, bit_count as int, i)
                    == data[i],
        decreases PACKET_BITS - bit_count,
    {
        let zeros = measure_run(buf, at, bit_len, 0);
        let ones = measure_run(buf, at + zeros, bit_len, 1);
        if zeros == 0 || ones == 0 {
            proof {
                assert(symbol_at(bits, at as int) is None);
                lemma_symbols_none_extends(
                    bits,
                    index as int,
                    (bit_count + 1) as nat,
                    PACKET_BITS as nat,
                );
            }
            return None;
        }
        let bit: u8 = if zeros >= ones { 0 } else { 1 };
        let byte_idx: usize = bit_count / 8;
        proof {
            lemma_packed_step(packet@, bit_count as int, data, bit);
            data = data.push(bit == 1);
        }
        packet[byte_idx] = (packet[byte_idx] << 1) | bit;
        at = at + zeros + ones;
        bit_count += 1;
    }
    if bit_count < PACKET_BITS {
        proof {
            assert(symbol_at(bits, at as int) is None);
            lemma_symbols_none_extends(
                bits,
                index as int,
                (bit_count + 1) as nat,
                PACKET_BITS as nat,
            );
        }
        return None;
    }
    proof {
        lemma_packed_full(packet, data);
    }
    Some((packet, at))
}

} // verus!
