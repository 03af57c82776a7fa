//! Preamble locator: finds where the repeating pattern `1,1,0,0` ends.
use vstd::prelude::*;
use crate::bits::{all_bits, bit_at, bits_of};

verus! {

/// The number of repetitions of the pattern that makes a preamble.
pub const MIN_QUALITY: usize = 8;

/// The four bits at `i` are inside the capture and read `1,1,0,0`.
pub open spec fn quad_at(bits: Seq<bool>, i: int) -> bool {
    &&& 0 <= i
    &&& i + 4 <= bits.len()
    &&& bits[i]
    &&& bits[i + 1]
    &&& !bits[i + 2]
    &&& !bits[i + 3]
}

/// How many times in a row the pattern stands at `i`, `i + 4`, `i + 8`, ...
pub open spec fn quad_run(bits: Seq<bool>, i: int) -> nat
    decreases bits.len() - i,
{
    if quad_at(bits, i) {
        1 + quad_run(bits, i + 4)
    } else {
        0
    }
}

/// A preamble starts at `s`: at least 32 bits remain there, and the pattern
/// stands at least eight times in a row.
pub open spec fn preamble_start(bits: Seq<bool>, s: int) -> bool {
    &&& 0 <= s
    &&& s + 32 <= bits.len()
    &&& quad_run(bits, s) >= MIN_QUALITY
}

/// `s` is the lowest offset at which a preamble starts.
pub open spec fn first_preamble_start(bits: Seq<bool>, s: int) -> bool {
    &&& preamble_start(bits, s)
    &&& forall|t: int| 0 <= t < s ==> !preamble_start(bits, t)
}

/// What the preamble locator finds in a capture: nothing where no preamble
/// starts anywhere; else, for the first preamble, the offset right after its
/// last repetition and its quality, which is the number of its repetitions.
pub open spec fn preamble_of(bits: Seq<bool>) -> Option<(int, int)> {
    if exists|s: int| first_preamble_start(bits, s) {
        let s = choose|s: int| first_preamble_start(bits, s);
        Some((s + 4 * quad_run(bits, s), quad_run(bits, s) as int))
    } else {
        None
    }
}

/// A run of repetitions lies inside the capture.
pub proof fn lemma_quad_run_fits(bits: Seq<bool>, i: int)
    requires
        0 <= i <= bits.len(),
    ensures
        i + 4 * quad_run(bits, i) <= bits.len(),
    decreases bits.len() - i,
{
    if quad_at(bits, i) {
        lemma_quad_run_fits(bits, i + 4);
    }
}

/// There is at most one lowest offset at which a preamble starts, so
/// [`preamble_of`] speaks of one preamble only.
pub proof fn lemma_first_preamble_unique(bits: Seq<bool>, a: int, b: int)
    requires
        first_preamble_start(bits, a),
        first_preamble_start(bits, b),
    ensures
        a == b,
{
    if a < b {
        assert(!preamble_start(bits, a));
    } else if b < a {
        assert(!preamble_start(bits, b));
    }
}

/// Where a preamble starts at `s`, one starts at a lowest offset, which is
/// not above `s`.
pub proof fn lemma_first_preamble_exists(bits: Seq<bool>, s: int)
    requires
        preamble_start(bits, s),
    ensures
        exists|first: int| first <= s && first_preamble_start(bits, first),
    decreases s,
{
    if exists|t: int| 0 <= t < s && preamble_start(bits, t) {
        let t = choose|t: int| 0 <= t < s && preamble_start(bits, t);
        lemma_first_preamble_exists(bits, t);
    } else {
        assert(first_preamble_start(bits, s));
    }
}

/// The locator finds a preamble exactly where one starts somewhere.
pub proof fn lemma_preamble_found(bits: Seq<bool>)
    ensures
        preamble_of(bits) is Some <==> exists|s: int| preamble_start(bits, s),
{
    if exists|s: int| preamble_start(bits, s) {
        let s = choose|s: int| preamble_start(bits, s);
        lemma_first_preamble_exists(bits, s);
    }
}

/// A preamble that was found ends inside the capture and its quality is at
/// least 8. It starts `4 * quality` bits before its end, and that is the
/// lowest offset at which a preamble starts.
pub proof fn lemma_preamble_bounds(bits: Seq<bool>)
    requires
        preamble_of(bits) is Some,
    ensures
        preamble_of(bits) matches Some((end, quality)) && MIN_QUALITY <= quality && 4 * quality
            <= end <= bits.len() && first_preamble_start(bits, end - 4 * quality) && quality
            == quad_run(bits, end - 4 * quality),
{
    let s = choose|s: int| first_preamble_start(bits, s);
    lemma_quad_run_fits(bits, s);
}

/// Tells whether the four bits of `buf` from `bit_idx` on read `1,1,0,0`.
pub fn matches_1100(buf: &[u8], bit_idx: usize) -> (matches: bool)
    requires
        bit_idx + 4 <= buf@.len() * 8,
        bit_idx + 4 <= usize::MAX,
    ensures
        matches == quad_at(all_bits(buf@), bit_idx as int),
{
    bit_at(buf, bit_idx) == 1 && bit_at(buf, bit_idx + 1) == 1 && bit_at(buf, bit_idx + 2) == 0
        && bit_at(buf, bit_idx + 3) == 0
}

/// Finds the first preamble in the first `bit_len` bits of `buf`, and returns
/// the offset right after it together with its quality, the number of
/// repetitions of the pattern that it is made of.
pub fn find_preamble(buf: &[u8], bit_len: usize) -> (found: Option<(usize, usize)>)
    requires
        bit_len <= buf@.len() * 8,
    ensures
        match found {
            Some((end, quality)) => preamble_of(bits_of(buf@, bit_len as int)) == Some(
                (end as int, quality as int),
            ),
            None => preamble_of(bits_of(buf@, bit_len as int)) is None,
        },
        found is Some <==> exists|s: int| preamble_start(bits_of(buf@, bit_len as int), s),
        found matches Some((end, quality)) ==> {
            &&& MIN_QUALITY <= quality
            &&& 4 * quality <= end <= bit_len
            &&& first_preamble_start(bits_of(buf@, bit_len as int), end - 4 * quality)
            &&& quality == quad_run(bits_of(buf@, bit_len as int), end - 4 * quality)
        },
{
    let ghost bits = bits_of(buf@, bit_len as int);
    let ghost all = all_bits(buf@);
    proof {
        lemma_preamble_found(bits);
    }
    if bit_len < 32 {
        return None;
    }
    let mut start: usize = 0;
    while start <= bit_len - 32
        invariant
            32 <= bit_len <= buf@.len() * 8,
            bits == bits_of(buf@, bit_len as int),
            all == all_bits(buf@),
            forall|t: int| 0 <= t < start ==> !preamble_start(bits, t),
        decreases bit_len - start,
    {
        let mut idx: usize = start;
        let mut quality: usize = 0;
        let ghost mut run: nat = 0;
        while bit_len - idx >= 4 && matches_1100(buf, idx)
            invariant
                start <= idx <= bit_len <= buf@.len() * 8,
                bits == bits_of(buf@, bit_len as int),
                all == all_bits(buf@),
                idx == start + 4 * run,
                quad_run(bits, start as int) == run + quad_run(bits, idx as int),
                quality == run,
            decreases bit_len - idx,
        {
            assert(quad_at(bits, idx as int) == quad_at(all, idx as int));
            quality += 1;
            idx += 4;
            proof {
                run = run + 1;
            }
        }
        assert(!quad_at(bits, idx as int)) by {
            if bit_len - idx >= 4 {
                assert(quad_at(bits, idx as int) == quad_at(all, idx as int));
            }
        }
        if quality >= MIN_QUALITY {
            proof {
                assert(first_preamble_start(bits, start as int));
                let first = choose|s: int| first_preamble_start(bits, s);
                lemma_first_preamble_unique(bits, first, start as int);
            }
            return Some((idx, quality));
        }
        start += 1;
    }
    None
}

} // verus!
