//! Decoder for the telemetry packets that a utility power meter sends over a
//! sub-GHz radio link.
//!
//! A capture is a byte buffer read from the receiver, taken as a string of
//! bits, most significant bit of each byte first. The capture is not aligned
//! to the transmitter's clock, so every stage works on bit offsets:
//!
//! 1. [`preamble`] finds a run of the repeating pattern `1,1,0,0`;
//! 2. [`sync`] finds the sixteen `1` bits that follow it;
//! 3. [`symbols`] reads 64 pulse-width coded symbols into an 8-byte packet;
//! 4. [`packet`] checks the packet's additive checksum and reads the power
//!    field;
//! 5. [`decode`] runs the stages in turn and names the stage that failed.
//!
//! Every stage is verified against a mathematical model of the capture,
//! `Seq<bool>`, defined in [`bits`].
//!
//! Two more modules serve the code that fills the capture: [`burst`] lays out
//! the frames of a burst transfer with the radio, and [`receive`] decides how
//! many bytes to read from its receive queue next.
pub mod bits;
pub mod preamble;
pub mod sync;
pub mod symbols;
pub mod packet;
pub mod decode;
pub mod burst;
pub mod receive;
