//! Sync locator: finds the sixteen `1` bits that mark the start of the payload.
use vstd::prelude::*;
use crate::bits::{bit_as_byte, bit_at, bits_of};

verus! {

/// The sync marker as the value of a 16-bit window.
pub const SYNC_WORD: u32 = 0xFFFF;

/// The sixteen bits at `p` are inside the capture and are all `1`.
pub open spec fn sync_at(bits: Seq<bool>, p: int) -> bool {
    &&& 0 <= p
    &&& p + 16 <= bits.len()
    &&& forall|i: int| p <= i < p + 16 ==> bits[i]
}

/// `p` is the lowest offset, not below `start`, at which the marker stands.
pub open spec fn first_sync_at(bits: Seq<bool>, start: int, p: int) -> bool {
    &&& start <= p
    &&& sync_at(bits, p)
    &&& forall|t: int| start <= t < p ==> !sync_at(bits, t)
}

/// What the sync locator finds from `start` on: nothing where the marker
/// stands nowhere at or after `start`; else the offset right after its first
/// occurrence there.
pub open spec fn sync_of(bits: Seq<bool>, start: int) -> Option<int> {
    if exists|p: int| first_sync_at(bits, start, p) {
        Some((choose|p: int| first_sync_at(bits, start, p)) + 16)
    } else {
        None
    }
}

/// There is at most one lowest offset at or after `start` at which the
/// marker stands, so [`sync_of`] speaks of one marker only.
pub proof fn lemma_first_sync_unique(bits: Seq<bool>, start: int, a: int, b: int)
    requires
        first_sync_at(bits, start, a),
        first_sync_at(bits, start, b),
    ensures
        a == b,
{
    if a < b {
        assert(!sync_at(bits, a));
    } else if b < a {
        assert(!sync_at(bits, b));
    }
}

/// Where the marker stands at `p`, at or after `start`, it stands at a lowest
/// offset at or after `start`, which is not above `p`.
pub proof fn lemma_first_sync_exists(bits: Seq<bool>, start: int, p: int)
    requires
        start <= p,
        sync_at(bits, p),
    ensures
        exists|first: int| first <= p && first_sync_at(bits, start, first),
    decreases p,
{
    if exists|t: int| start <= t < p && sync_at(bits, t) {
        let t = choose|t: int| start <= t < p && sync_at(bits, t);
        lemma_first_sync_exists(bits, start, t);
    } else {
        assert(first_sync_at(bits, start, p));
    }
}

/// The locator finds a marker exactly where one stands at or after `start`.
pub proof fn lemma_sync_found(bits: Seq<bool>, start: int)
    ensures
        sync_of(bits, start) is Some <==> exists|p: int| start <= p && sync_at(bits, p),
{
    if exists|p: int| start <= p && sync_at(bits, p) {
        let p = choose|p: int| start <= p && sync_at(bits, p);
        lemma_first_sync_exists(bits, start, p);
    }
}

/// A sync marker that was found ends inside the capture, at least 16 bits
/// after the offset from which it was looked for.
pub proof fn lemma_sync_bounds(bits: Seq<bool>, start: int)
    requires
        sync_of(bits, start) is Some,
    ensures
        sync_of(bits, start) matches Some(end) && start + 16 <= end <= bits.len(),
{
}

/// Bit `k` of the rolling window, counted from the bit that came in last.
spec fn window_bit(window: u32, k: int) -> bool {
    (window >> (k as u32)) & 1 == 1
}

/// The window after one more bit has come in.
spec fn shift_in(window: u32, bit: u8) -> u32 {
    ((window << 1) | (bit as u32)) & SYNC_WORD
}

proof fn lemma_shift_in_newest(window: u32, bit: u8)
    by (bit_vector)
    requires
        bit <= 1,
    ensures
        ((((window << 1) | (bit as u32)) & 0xFFFF) >> 0) & 1 == bit as u32,
        ((window << 1) | (bit as u32)) & 0xFFFF <= 0xFFFF,
{
}

proof fn lemma_shift_in_older(window: u32, bit: u8, k: u32)
    by (bit_vector)
    requires
        bit <= 1,
        1 <= k < 16,
    ensures
        ((((window << 1) | (bit as u32)) & 0xFFFF) >> k) & 1 == (window >> ((k - 1) as u32)) & 1,
{
}

proof fn lemma_full_window(window: u32)
    by (bit_vector)
    requires
        window <= 0xFFFF,
    ensures
        window == 0xFFFF <==> ((window >> 0) & 1 == 1 && (window >> 1) & 1 == 1 && (window >> 2) & 1
            == 1 && (window >> 3) & 1 == 1 && (window >> 4) & 1 == 1 && (window >> 5) & 1 == 1 && (
        window >> 6) & 1 == 1 && (window >> 7) & 1 == 1 && (window >> 8) & 1 == 1 && (window >> 9)
            & 1 == 1 && (window >> 10) & 1 == 1 && (window >> 11) & 1 == 1 && (window >> 12) & 1
            == 1 && (window >> 13) & 1 == 1 && (window >> 14) & 1 == 1 && (window >> 15) & 1 == 1),
{
}

/// The window holds the last sixteen bits read, with `false` for what lies
/// before `start`.
spec fn window_holds(window: u32, bits: Seq<bool>, start: int, idx: int) -> bool {
    &&& window <= SYNC_WORD
    &&& forall|k: int|
        0 <= k < 16 ==> #[trigger] window_bit(window, k) == (idx - 1 - k >= start && bits[idx - 1
            - k])
}

proof fn lemma_window_step(window: u32, bits: Seq<bool>, start: int, idx: int, bit: u8)
    requires
        0 <= start <= idx < bits.len(),
        window_holds(window, bits, start, idx),
        bit == bit_as_byte(bits[idx]),
    ensures
        window_holds(shift_in(window, bit), bits, start, idx + 1),
{
    let next = shift_in(window, bit);
    lemma_shift_in_newest(window, bit);
    assert forall|k: int| 0 <= k < 16 implies #[trigger] window_bit(next, k) == (idx - k >= start
        && bits[idx - k]) by {
        if k == 0 {
        } else {
            lemma_shift_in_older(window, bit, k as u32);
            assert(window_bit(next, k) == window_bit(window, k - 1));
        }
    }
}

proof fn lemma_window_full(window: u32, bits: Seq<bool>, start: int, idx: int)
    requires
        0 <= start,
        start + 16 <= idx <= bits.len(),
        window_holds(window, bits, start, idx),
    ensures
        window == SYNC_WORD <==> sync_at(bits, idx - 16),
{
    lemma_full_window(window);
    assert(window_bit(window, 0) == bits[idx - 1]);
    assert(window_bit(window, 1) == bits[idx - 2]);
    assert(window_bit(window, 2) == bits[idx - 3]);
    assert(window_bit(window, 3) == bits[idx - 4]);
    assert(window_bit(window, 4) == bits[idx - 5]);
    assert(window_bit(window, 5) == bits[idx - 6]);
    assert(window_bit(window, 6) == bits[idx - 7]);
    assert(window_bit(window, 7) == bits[idx - 8]);
    assert(window_bit(window, 8) == bits[idx - 9]);
    assert(window_bit(window, 9) == bits[idx - 10]);
    assert(window_bit(window, 10) == bits[idx - 11]);
    assert(window_bit(window, 11) == bits[idx - 12]);
    assert(window_bit(window, 12) == bits[idx - 13]);
    assert(window_bit(window, 13) == bits[idx - 14]);
    assert(window_bit(window, 14) == bits[idx - 15]);
    assert(window_bit(window, 15) == bits[idx - 16]);
    if window == SYNC_WORD {
        assert forall|i: int| idx - 16 <= i < idx implies bits[i] by {
            assert(window_bit(window, idx - 1 - i));
        }
    }
}

/// Finds the first sync marker at or after `start_bit` in the first `bit_len`
/// bits of `buf`, and returns the offset right after it.
pub fn find_sync(buf: &[u8], start_bit: usize, bit_len: usize) -> (found: Option<usize>)
    requires
        bit_len <= buf@.len() * 8,
    ensures
        match found {
            Some(end) => sync_of(bits_of(buf@, bit_len as int), start_bit as int) == Some(
                end as int,
            ),
            None => sync_of(bits_of(buf@, bit_len as int), start_bit as int) is None,
        },
        found is Some <==> exists|p: int|
            start_bit <= p && sync_at(bits_of(buf@, bit_len as int), p),
        found matches Some(end) ==> start_bit + 16 <= end <= bit_len,
{
    let ghost bits = bits_of(buf@, bit_len as int);
    proof {
        lemma_sync_found(bits, start_bit as int);
    }
    if bit_len < 16 || start_bit >= bit_len - 15 {
        return None;
    }
    let mut window: u32 = 0;
    let mut idx: usize = start_bit;
    proof {
        assert forall|k: int| 0 <= k < 16 implies !#[trigger] window_bit(0, k) by {
            let s = k as u32;
            assert((0u32 >> s) & 1 == 0) by (bit_vector);
        }
    }
    while idx < bit_len
        invariant
            start_bit <= idx <= bit_len <= buf@.len() * 8,
            start_bit + 16 <= bit_len,
            bits == bits_of(buf@, bit_len as int),
            window_holds(window, bits, start_bit as int, idx as int),
            forall|p: int| start_bit <= p && p + 16 <= idx ==> !sync_at(bits, p),
        decreases bit_len - idx,
    {
        let bit = bit_at(buf, idx);
        proof {
            lemma_window_step(window, bits, start_bit as int, idx as int, bit);
        }
        window = ((window << 1) | bit as u32) & SYNC_WORD;
        if idx + 1 >= start_bit + 16 {
            proof {
                lemma_window_full(window, bits, start_bit as int, idx + 1);
            }
            if window == SYNC_WORD {
                proof {
                    let p = idx + 1 - 16;
                    assert(first_sync_at(bits, start_bit as int, p));
                    let first = choose|q: int| first_sync_at(bits, start_bit as int, q);
                    lemma_first_sync_unique(bits, start_bit as int, first, p);
                }
                return Some(idx + 1);
            }
        }
        idx += 1;
    }
    None
}

} // verus!
