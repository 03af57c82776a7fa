//! Draining the radio's receive queue into a capture, one read at a time.
//!
//! While a transmission lasts, the host asks the radio again and again how
//! many bytes wait in its receive queue, and reads them out in bursts. The
//! count can change while it is read, so it is asked twice and taken only
//! where both answers agree.
use vstd::prelude::*;
use crate::burst::burst_len_ok;
use crate::decode::CAPTURE_BYTES;

verus! {

/// The number of bytes at which a capture is complete.
pub const CAPTURE_LIMIT: usize = 127;

/// The number of bytes that the radio's receive queue holds.
pub const QUEUE_BYTES: usize = 64;

/// What to do after the radio has told twice how many bytes wait.
#[derive(Debug, Clone, Copy, PartialEq, Eq)]
pub enum DrainStep {
    /// Read this many bytes and append them to the capture.
    Read(usize),
    /// The queue has run over: report it and ask again.
    Overflow,
    /// Nothing can be read yet: ask again.
    Retry,
}

/// The step that follows the two counts `first` and `second`, with
/// `read_bytes` bytes captured so far.
///
/// Bytes are read where both counts agree on a number from 1 to 63, and no
/// more of them than the capture still takes. A first count above 64 is an
/// overflow.
pub open spec fn drain_step(read_bytes: int, first: int, second: int) -> DrainStep {
    if first == second && 0 < first < QUEUE_BYTES {
        DrainStep::Read(vstd::math::min(first, CAPTURE_LIMIT - read_bytes) as usize)
    } else if first > QUEUE_BYTES {
        DrainStep::Overflow
    } else {
        DrainStep::Retry
    }
}

/// Decides the next step of a capture that holds `read_bytes` bytes and is
/// not complete, from two counts of the bytes that wait in the queue.
pub fn plan_drain(read_bytes: usize, first: usize, second: usize) -> (step: DrainStep)
    requires
        read_bytes < CAPTURE_LIMIT,
    ensures
        step == drain_step(read_bytes as int, first as int, second as int),
        step matches DrainStep::Read(len) ==> {
            &&& burst_len_ok(len as int)
            &&& len <= first
            &&& read_bytes + len <= CAPTURE_LIMIT < CAPTURE_BYTES
        },
{
    if first == second && first > 0 && first < QUEUE_BYTES {
        if read_bytes + first >= CAPTURE_LIMIT {
            DrainStep::Read(CAPTURE_LIMIT - read_bytes)
        } else {
            DrainStep::Read(first)
        }
    } else if first > QUEUE_BYTES {
        DrainStep::Overflow
    } else {
        DrainStep::Retry
    }
}

} // verus!
