//! Error values reported by the decoding layers.
//!
//! Every failure a decode step can detect is propagated as a distinct value,
//! carrying the offending step and the raw bytes involved, so that the caller
//! can decide whether to halt, reset or retry.

use vstd::prelude::*;

verus! {

/// Where a CRC mismatch was detected, with the raw bytes involved.
#[derive(Clone, Copy, PartialEq, Eq, Debug)]
pub enum CrcSite {
    /// A header in hexadecimal encoding; carries its type and data bytes.
    HexHeader { typ: u8, d0: u8, d1: u8, d2: u8, d3: u8 },
    /// A header in raw binary encoding; carries its type and data bytes.
    BinHeader { typ: u8, d0: u8, d1: u8, d2: u8, d3: u8 },
    /// A data subpacket; carries its terminator byte.
    Subpacket { terminator: u8 },
}

/// A fatal protocol condition detected during decoding.
#[derive(Clone, Copy, PartialEq, Eq, Debug)]
pub enum ZError {
    /// A header of an unexpected type arrived at a protocol step.
    FramingError { expected: u8, actual: u8 },
    /// A header or subpacket failed its CRC validation.
    CrcMismatch { site: CrcSite },
    /// A byte encoding that cannot be classified at the point it was read.
    UnsupportedSymbol { byte: u8 },
    /// Subpacket data would exceed the destination buffer's remaining capacity.
    BufferOverrun,
    /// The byte source ended before the current decode step completed.
    SourceExhausted,
}

} // verus!
