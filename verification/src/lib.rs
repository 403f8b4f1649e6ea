//! A verified receiver for a ZMODEM-derived file-transfer wire protocol.
//!
//! The library turns an escape-coded serial byte stream into a contiguous,
//! CRC-validated memory image.  Each decoding layer (CRC accumulator, symbol
//! codec, header codec, subpacket decoder, session engine) is specified
//! against a mathematical model of the byte stream and verified with Verus.

pub mod buffer;
pub mod crc;
pub mod error;
pub mod mmio;
pub mod transport;
pub mod wire;
pub mod zmodem;
