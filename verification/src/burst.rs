//! Frames of a burst transfer between the host and the radio's registers.
//!
//! A burst is one exchange on the serial bus: the host sends a header byte,
//! which holds the address of the first register and the kind of access, and
//! then one byte for each register. What the radio sends meanwhile starts
//! with a status byte; on a read, the registers' contents follow it.
use vstd::prelude::*;

verus! {

/// The greatest number of bytes in one exchange: the header and 64 registers.
pub const MAX_SPI_BUF: usize = 65;

/// The header bits of a burst read.
pub const READ_BURST: u8 = 0xC0;

/// The header bit of a burst write.
pub const WRITE_BURST: u8 = 0x40;

/// A burst carries at least one register and fits in one exchange.
pub open spec fn burst_len_ok(len: int) -> bool {
    1 <= len <= MAX_SPI_BUF - 1
}

/// What the host sends to read registers from `addr` on: the header, then
/// zeros.
pub open spec fn read_frame(addr: u8) -> Seq<u8> {
    Seq::new(MAX_SPI_BUF as nat, |i: int| if i == 0 { addr | READ_BURST } else { 0u8 })
}

/// What the host sends to write `payload` to the registers from `addr` on:
/// the header, then the payload, then zeros.
pub open spec fn write_frame(addr: u8, payload: Seq<u8>) -> Seq<u8> {
    Seq::new(
        MAX_SPI_BUF as nat,
        |i: int|
            if i == 0 {
                addr | WRITE_BURST
            } else if i <= payload.len() {
                payload[i - 1]
            } else {
                0u8
            },
    )
}

/// Builds the frame that reads `len` registers from `addr` on. There is none
/// for a burst of no register or of more than 64.
pub fn read_burst_frame(addr: u8, len: usize) -> (frame: Option<[u8; 65]>)
    ensures
        frame is Some <==> burst_len_ok(len as int),
        frame matches Some(tx) ==> tx@ == read_frame(addr),
{
    if len == 0 || len > MAX_SPI_BUF - 1 {
        return None;
    }
    let mut tx: [u8; 65] = [0u8; 65];
    tx[0] = addr | READ_BURST;
    assert(tx@ =~= read_frame(addr));
    Some(tx)
}

/// Builds the frame that writes `payload` to the registers from `addr` on.
/// There is none for a payload of no byte or of more than 64.
pub fn write_burst_frame(addr: u8, payload: &[u8]) -> (frame: Option<[u8; 65]>)
    ensures
        frame is Some <==> burst_len_ok(payload@.len() as int),
        frame matches Some(tx) ==> tx@ == write_frame(addr, payload@),
{
    let len = payload.len();
    if len == 0 || len > MAX_SPI_BUF - 1 {
        return None;
    }
    let mut tx: [u8; 65] = [0u8; 65];
    tx[0] = addr | WRITE_BURST;
    let mut i: usize = 0;
    while i < len
        invariant
            i <= len == payload@.len() <= MAX_SPI_BUF - 1,
            tx[0] == addr | WRITE_BURST,
            forall|j: int| 1 <= j <= i ==> tx[j] == payload[j - 1],
            forall|j: int| i < j < MAX_SPI_BUF ==> tx[j] == 0,
        decreases len - i,
    {
        tx[i + 1] = payload[i];
        i += 1;
    }
    assert(tx@ =~= write_frame(addr, payload@));
    Some(tx)
}

/// Copies the registers' contents out of what the radio sent during a burst
/// read: the bytes behind the status byte, as many as `buf` takes.
pub fn read_burst_payload(rx: &[u8; 65], buf: &mut [u8])
    requires
        burst_len_ok(old(buf)@.len() as int),
    ensures
        final(buf)@ == rx@.subrange(1, 1 + old(buf)@.len() as int),
{
    let len = buf.len();
    let mut i: usize = 0;
    while i < len
        invariant
            i <= len == buf@.len() <= MAX_SPI_BUF - 1,
            forall|j: int| 0 <= j < i ==> buf[j] == rx[j + 1],
        decreases len - i,
    {
        buf[i] = rx[i + 1];
        i += 1;
    }
    assert(buf@ =~= rx@.subrange(1, 1 + len));
}

} // verus!
