//! The wire format: escape-coded symbols, hexadecimal digits, headers and
//! subpackets, modelled as functions over the incoming byte sequence.
//!
//! Every `spec_read_*` function takes the bytes still to be delivered and
//! returns what the corresponding decoder yields together with the bytes left
//! over; the executable decoders in `zmodem` are specified exactly against
//! these functions.  The `spec_*_bytes` functions give the outgoing encodings.

use vstd::prelude::*;

use crate::crc::lemma_crc_detects_corruption;
use crate::crc::lemma_crc_round_trip;
use crate::crc::lemma_crc_seq_push;
use crate::crc::spec_crc_finish;
use crate::crc::spec_crc_of;
use crate::crc::spec_crc_seq;
use crate::crc::Crc16;
use crate::error::CrcSite;
use crate::error::ZError;

verus! {

/// In-band flow-control byte asking the sender to pause.
pub const XOFF: u8 = 0x13;

/// In-band flow-control byte asking the sender to resume.
pub const XON: u8 = 0x11;

/// The pause flow-control byte with its top bit set.
pub const XOFFESC: u8 = 0x93;

/// The resume flow-control byte with its top bit set.
pub const XONESC: u8 = 0x91;

/// The escape marker byte.
pub const ZDLE: u8 = 0x18;

/// Subpacket terminator: end of data, no more subpackets follow here.
pub const ZCRCE: u8 = 0x68;

/// Subpacket terminator: end of this subpacket, more follow.
pub const ZCRCG: u8 = 0x69;

/// Subpacket terminator: reserved variant, validated but not acted on.
pub const ZCRCQ: u8 = 0x6a;

/// Subpacket terminator: reserved variant, validated but not acted on.
pub const ZCRCW: u8 = 0x6b;

/// Header encoding selector: raw binary with 16-bit CRC.
pub const ZBIN: u8 = 0x41;

/// Header encoding selector: hexadecimal ASCII.
pub const ZHEX: u8 = 0x42;

/// Header type: the sender requests receiver initialization.
pub const ZRQINIT: u8 = 0;

/// Header type: receiver initialization reply.
pub const ZRINIT: u8 = 1;

/// Header type: acknowledgement (not expected by this receiver).
pub const ZACK: u8 = 3;

/// Header type: file information follows.
pub const ZFILE: u8 = 4;

/// Header type: session finish.
pub const ZFIN: u8 = 8;

/// Header type: receiver requests data from a file position.
pub const ZRPOS: u8 = 9;

/// Header type: data subpackets follow.
pub const ZDATA: u8 = 10;

/// Header type: end of file.
pub const ZEOF: u8 = 11;

/// The two flow-control bytes discarded by plain reads.
pub open spec fn is_plain_flow(b: u8) -> bool {
    b == XON || b == XOFF
}

/// The four flow-control forms discarded by escaped/binary reads.
pub open spec fn is_flow_byte(b: u8) -> bool {
    b == XON || b == XOFF || b == XONESC || b == XOFFESC
}

/// The four recognized subpacket terminator codes.
pub open spec fn is_terminator(b: u8) -> bool {
    b == ZCRCE || b == ZCRCG || b == ZCRCQ || b == ZCRCW
}

/// Bytes the serial transport cannot pass transparently; a sender must escape
/// them, and the symbol codec reverses that escaping.
pub open spec fn needs_escape(b: u8) -> bool {
    is_flow_byte(b) || b == ZDLE
}

/// One decoded unit from the wire: a literal data byte, or a control marker
/// identifying a subpacket terminator class.
#[derive(Clone, Copy, PartialEq, Eq, Debug)]
pub enum Sym {
    /// A literal data byte.
    Chr(u8),
    /// A control/terminator code that followed the escape marker.
    Esc(u8),
}

impl Sym {
    /// The byte carried by the symbol, whichever class it has.
    pub open spec fn sym_val(self) -> u8 {
        match self {
            Sym::Chr(v) => v,
            Sym::Esc(v) => v,
        }
    }

    /// Extract the carried byte.
    pub fn as_u8(self) -> (r: u8)
        ensures
            r == self.sym_val(),
    {
        match self {
            Sym::Chr(v) => v,
            Sym::Esc(v) => v,
        }
    }
}

/// A plain/ASCII read: discard pause/resume flow-control bytes and return the
/// next byte unchanged.  Yields the byte read and the bytes left over.
pub open spec fn spec_read_plain(s: Seq<u8>) -> (Result<u8, ZError>, Seq<u8>)
    decreases s.len(),
{
    if s.len() == 0 {
        (Err(ZError::SourceExhausted), s)
    } else if is_plain_flow(s[0]) {
        spec_read_plain(s.skip(1))
    } else {
        (Ok(s[0]), s.skip(1))
    }
}

/// The continuation of an escaped/binary read after the escape marker:
/// a recognized terminator code becomes a control symbol, flow-control forms
/// are discarded, and anything else is un-escaped by XOR with 0x40.
pub open spec fn spec_read_escaped(s: Seq<u8>) -> (Result<Sym, ZError>, Seq<u8>)
    decreases s.len(),
{
    if s.len() == 0 {
        (Err(ZError::SourceExhausted), s)
    } else if is_terminator(s[0]) {
        (Ok(Sym::Esc(s[0])), s.skip(1))
    } else if is_flow_byte(s[0]) {
        spec_read_escaped(s.skip(1))
    } else {
        (Ok(Sym::Chr(s[0] ^ 0x40)), s.skip(1))
    }
}

/// An escaped/binary read: discard flow-control forms; after the escape
/// marker, continue as `spec_read_escaped`; any other byte is a literal.
pub open spec fn spec_read_sym(s: Seq<u8>) -> (Result<Sym, ZError>, Seq<u8>)
    decreases s.len(),
{
    if s.len() == 0 {
        (Err(ZError::SourceExhausted), s)
    } else if s[0] == ZDLE {
        spec_read_escaped(s.skip(1))
    } else if is_flow_byte(s[0]) {
        spec_read_sym(s.skip(1))
    } else {
        (Ok(Sym::Chr(s[0])), s.skip(1))
    }
}

/// Discard bytes until one equal to `t` has been consumed.
pub open spec fn spec_scan_past(s: Seq<u8>, t: u8) -> (Result<(), ZError>, Seq<u8>)
    decreases s.len(),
{
    if s.len() == 0 {
        (Err(ZError::SourceExhausted), s)
    } else if s[0] == t {
        (Ok(()), s.skip(1))
    } else {
        spec_scan_past(s.skip(1), t)
    }
}

/// The value of an ASCII hexadecimal digit (lowercase letters), if any.
pub open spec fn spec_hex_nibble_val(b: u8) -> Option<u8> {
    if 0x30 <= b && b <= 0x39 {
        Some((b - 0x30) as u8)
    } else if 0x61 <= b && b <= 0x66 {
        Some((b - 0x61 + 10) as u8)
    } else {
        None
    }
}

/// Read one byte encoded as two plain hexadecimal digits, high nibble first.
/// A byte that is not a hexadecimal digit cannot be classified.
pub open spec fn spec_read_hex_byte(s: Seq<u8>) -> (Result<u8, ZError>, Seq<u8>) {
    let (r1, s1) = spec_read_plain(s);
    match r1 {
        Err(e) => (Err(e), s1),
        Ok(c1) => match spec_hex_nibble_val(c1) {
            None => (Err(ZError::UnsupportedSymbol { byte: c1 }), s1),
            Some(hi) => {
                let (r2, s2) = spec_read_plain(s1);
                match r2 {
                    Err(e) => (Err(e), s2),
                    Ok(c2) => match spec_hex_nibble_val(c2) {
                        None => (Err(ZError::UnsupportedSymbol { byte: c2 }), s2),
                        Some(lo) => (Ok((hi << 4) | lo), s2),
                    },
                }
            },
        },
    }
}

/// Read `n` hex-encoded bytes in a row.
pub open spec fn spec_read_hex_bytes(s: Seq<u8>, n: nat) -> (Result<Seq<u8>, ZError>, Seq<u8>)
    decreases n,
{
    if n == 0 {
        (Ok(Seq::empty()), s)
    } else {
        let (r1, s1) = spec_read_hex_byte(s);
        match r1 {
            Err(e) => (Err(e), s1),
            Ok(b) => {
                let (r2, s2) = spec_read_hex_bytes(s1, (n - 1) as nat);
                match r2 {
                    Err(e) => (Err(e), s2),
                    Ok(bs) => (Ok(seq![b] + bs), s2),
                }
            },
        }
    }
}

/// Read `n` escaped/binary symbols that must all be literal data bytes;
/// a control symbol in their place is protocol-level corruption.
pub open spec fn spec_read_literals(s: Seq<u8>, n: nat) -> (Result<Seq<u8>, ZError>, Seq<u8>)
    decreases n,
{
    if n == 0 {
        (Ok(Seq::empty()), s)
    } else {
        let (r1, s1) = spec_read_sym(s);
        match r1 {
            Err(e) => (Err(e), s1),
            Ok(Sym::Esc(t)) => (Err(ZError::UnsupportedSymbol { byte: t }), s1),
            Ok(Sym::Chr(b)) => {
                let (r2, s2) = spec_read_literals(s1, (n - 1) as nat);
                match r2 {
                    Err(e) => (Err(e), s2),
                    Ok(bs) => (Ok(seq![b] + bs), s2),
                }
            },
        }
    }
}

/// Decode the seven-byte header body (type, four data bytes, two CRC bytes)
/// in hexadecimal encoding, validate its CRC, and consume one trailing byte;
/// when that byte is a carriage return, the line feed after it as well.
pub open spec fn spec_read_hex_header(s: Seq<u8>) -> (Result<(u8, Seq<u8>), ZError>, Seq<u8>) {
    let (r, s1) = spec_read_hex_bytes(s, 7);
    match r {
        Err(e) => (Err(e), s1),
        Ok(bs) => {
            if spec_crc_of(bs) != 0 {
                (
                    Err(
                        ZError::CrcMismatch {
                            site: CrcSite::HexHeader {
                                typ: bs[0],
                                d0: bs[1],
                                d1: bs[2],
                                d2: bs[3],
                                d3: bs[4],
                            },
                        },
                    ),
                    s1,
                )
            } else {
                let (r2, s2) = spec_read_plain(s1);
                match r2 {
                    Err(e) => (Err(e), s2),
                    Ok(c) => {
                        if c == 0x0d {
                            let (r3, s3) = spec_read_plain(s2);
                            match r3 {
                                Err(e) => (Err(e), s3),
                                Ok(_) => (Ok((bs[0], bs.subrange(1, 5))), s3),
                            }
                        } else {
                            (Ok((bs[0], bs.subrange(1, 5))), s2)
                        }
                    },
                }
            }
        },
    }
}

/// Decode the seven-byte header body in raw binary encoding and validate its
/// CRC.
pub open spec fn spec_read_bin16_header(s: Seq<u8>) -> (Result<(u8, Seq<u8>), ZError>, Seq<u8>) {
    let (r, s1) = spec_read_literals(s, 7);
    match r {
        Err(e) => (Err(e), s1),
        Ok(bs) => {
            if spec_crc_of(bs) != 0 {
                (
                    Err(
                        ZError::CrcMismatch {
                            site: CrcSite::BinHeader {
                                typ: bs[0],
                                d0: bs[1],
                                d1: bs[2],
                                d2: bs[3],
                                d3: bs[4],
                            },
                        },
                    ),
                    s1,
                )
            } else {
                (Ok((bs[0], bs.subrange(1, 5))), s1)
            }
        },
    }
}

/// Recognize a frame start and decode one header: scan past an ASCII `*`,
/// then past the escape marker, read the encoding selector, and decode the
/// header body in the selected encoding.  Yields the header type and its four
/// data bytes.
pub open spec fn spec_read_header(s: Seq<u8>) -> (Result<(u8, Seq<u8>), ZError>, Seq<u8>) {
    let (r0, s0) = spec_scan_past(s, 0x2a);
    match r0 {
        Err(e) => (Err(e), s0),
        Ok(_) => {
            let (r1, s1) = spec_scan_past(s0, ZDLE);
            match r1 {
                Err(e) => (Err(e), s1),
                Ok(_) => {
                    let (r2, s2) = spec_read_plain(s1);
                    match r2 {
                        Err(e) => (Err(e), s2),
                        Ok(c) => {
                            if c == ZHEX {
                                spec_read_hex_header(s2)
                            } else if c == ZBIN {
                                spec_read_bin16_header(s2)
                            } else {
                                (Err(ZError::UnsupportedSymbol { byte: c }), s2)
                            }
                        },
                    }
                },
            }
        },
    }
}

/// Read literal symbols into a destination with `cap` bytes of room until a
/// control symbol arrives.  Yields the terminator code, the bytes left over,
/// and the literal bytes written; one more literal than the destination can
/// hold is a buffer overrun.
pub open spec fn spec_read_subpacket_data(s: Seq<u8>, cap: nat) -> (
    Result<u8, ZError>,
    Seq<u8>,
    Seq<u8>,
)
    decreases s.len(),
{
    let (r, s1) = spec_read_sym(s);
    match r {
        Err(e) => (Err(e), s1, Seq::empty()),
        Ok(Sym::Esc(t)) => (Ok(t), s1, Seq::empty()),
        Ok(Sym::Chr(b)) => {
            if cap == 0 {
                (Err(ZError::BufferOverrun), s1, Seq::empty())
            } else {
                proof {
                    lemma_read_sym_consumes(s);
                }
                let (r2, s2, w) = spec_read_subpacket_data(s1, (cap - 1) as nat);
                (r2, s2, seq![b] + w)
            }
        },
    }
}

/// Decode one CRC-protected subpacket: literal data, a terminator symbol, and
/// two trailing CRC bytes over which the accumulator must finalize to zero.
/// Yields the terminator code, the bytes left over, and the payload written.
pub open spec fn spec_read_subpacket(s: Seq<u8>, cap: nat) -> (
    Result<u8, ZError>,
    Seq<u8>,
    Seq<u8>,
) {
    let (r, s1, w) = spec_read_subpacket_data(s, cap);
    match r {
        Err(e) => (Err(e), s1, w),
        Ok(t) => {
            let (rc1, s2) = spec_read_sym(s1);
            match rc1 {
                Err(e) => (Err(e), s2, w),
                Ok(y1) => {
                    let (rc2, s3) = spec_read_sym(s2);
                    match rc2 {
                        Err(e) => (Err(e), s3, w),
                        Ok(y2) => {
                            if spec_crc_finish(
                                spec_crc_seq(0, w + seq![t, y1.sym_val(), y2.sym_val()]),
                            ) == 0 {
                                (Ok(t), s3, w)
                            } else {
                                (
                                    Err(
                                        ZError::CrcMismatch {
                                            site: CrcSite::Subpacket { terminator: t },
                                        },
                                    ),
                                    s3,
                                    w,
                                )
                            }
                        },
                    }
                },
            }
        },
    }
}

/// The escape coding a sender applies to one byte: bytes the transport cannot
/// pass transparently become the escape marker followed by the byte XOR 0x40;
/// every other byte passes through unchanged.
pub open spec fn spec_escape(b: u8) -> Seq<u8> {
    if needs_escape(b) {
        seq![ZDLE, b ^ 0x40]
    } else {
        seq![b]
    }
}

/// The escape coding of a whole payload.
pub open spec fn spec_escape_seq(s: Seq<u8>) -> Seq<u8>
    decreases s.len(),
{
    if s.len() == 0 {
        Seq::empty()
    } else {
        spec_escape(s[0]) + spec_escape_seq(s.skip(1))
    }
}

/// The ASCII hexadecimal digit (lowercase) for a nibble value.
pub open spec fn spec_hex_digit(v: u8) -> u8 {
    if v >= 10 {
        (v + 87) as u8
    } else {
        (v + 48) as u8
    }
}

/// The hexadecimal encoding of a byte sequence, two digits per byte, high
/// nibble first.
pub open spec fn spec_hex_bytes(s: Seq<u8>) -> Seq<u8>
    decreases s.len(),
{
    if s.len() == 0 {
        Seq::empty()
    } else {
        seq![spec_hex_digit(s[0] >> 4), spec_hex_digit(s[0] & 0xf)] + spec_hex_bytes(s.skip(1))
    }
}

/// The on-wire form of an outgoing header in hexadecimal encoding: the
/// frame-start sequence, the selector, the hex-encoded type, data and CRC
/// bytes, then a carriage return, a line feed and one flow-control resume
/// byte.
pub open spec fn spec_hex_header_bytes(typ: u8, data: Seq<u8>) -> Seq<u8> {
    let body = seq![typ] + data;
    let f = spec_crc_of(body);
    seq![0x2a, 0x2a, ZDLE, ZHEX] + spec_hex_bytes(body + seq![(f >> 8) as u8, f as u8]) + seq![
        0x0d,
        0x0a,
        XON,
    ]
}

/// The on-wire form of one outgoing subpacket: the escape-coded payload, the
/// escape marker with the terminator code, and the two escape-coded big-endian
/// CRC bytes computed over the payload and the terminator.
pub open spec fn spec_subpacket_bytes(data: Seq<u8>, term: u8) -> Seq<u8> {
    let f = spec_crc_of(data + seq![term]);
    spec_escape_seq(data) + seq![ZDLE, term] + spec_escape((f >> 8) as u8) + spec_escape(f as u8)
}

/// An escaped continuation consumes at least one byte when it yields a symbol.
pub proof fn lemma_read_escaped_consumes(s: Seq<u8>)
    ensures
        spec_read_escaped(s).1.len() <= s.len(),
        spec_read_escaped(s).0 is Ok ==> spec_read_escaped(s).1.len() < s.len(),
    decreases s.len(),
{
    if s.len() > 0 && !is_terminator(s[0]) && is_flow_byte(s[0]) {
        lemma_read_escaped_consumes(s.skip(1));
    }
}

/// A symbol read consumes at least one byte when it yields a symbol.
pub proof fn lemma_read_sym_consumes(s: Seq<u8>)
    ensures
        spec_read_sym(s).1.len() <= s.len(),
        spec_read_sym(s).0 is Ok ==> spec_read_sym(s).1.len() < s.len(),
    decreases s.len(),
{
    if s.len() > 0 {
        if s[0] == ZDLE {
            lemma_read_escaped_consumes(s.skip(1));
        } else if is_flow_byte(s[0]) {
            lemma_read_sym_consumes(s.skip(1));
        }
    }
}

/// Reading subpacket data consumes at least one byte when it yields a
/// terminator, and never writes more than the destination has room for.
pub proof fn lemma_read_subpacket_data_consumes(s: Seq<u8>, cap: nat)
    ensures
        spec_read_subpacket_data(s, cap).1.len() <= s.len(),
        spec_read_subpacket_data(s, cap).0 is Ok ==> spec_read_subpacket_data(s, cap).1.len()
            < s.len(),
        spec_read_subpacket_data(s, cap).2.len() <= cap,
    decreases s.len(),
{
    lemma_read_sym_consumes(s);
    let (r, s1) = spec_read_sym(s);
    match r {
        Err(_) => {},
        Ok(Sym::Esc(_)) => {},
        Ok(Sym::Chr(_)) => {
            if cap > 0 {
                lemma_read_subpacket_data_consumes(s1, (cap - 1) as nat);
            }
        },
    }
}



/// Reading a whole subpacket consumes at least one byte when it succeeds, and
/// never writes more than the destination has room for.
pub proof fn lemma_read_subpacket_consumes(s: Seq<u8>, cap: nat)
    ensures
        spec_read_subpacket(s, cap).1.len() <= s.len(),
        spec_read_subpacket(s, cap).0 is Ok ==> spec_read_subpacket(s, cap).1.len() < s.len(),
        spec_read_subpacket(s, cap).2.len() <= cap,
{
    lemma_read_subpacket_data_consumes(s, cap);
    let (r, s1, w) = spec_read_subpacket_data(s, cap);
    if r is Ok {
        lemma_read_sym_consumes(s1);
        let (rc1, s2) = spec_read_sym(s1);
        lemma_read_sym_consumes(s2);
    }
}

/// Escape round trip: for every byte, including the flow-control codes and
/// the escape marker itself, escape-coding the byte and reading it back as a
/// symbol yields exactly that byte as a literal, consuming exactly its
/// encoding.
pub proof fn lemma_escape_round_trip(b: u8, rest: Seq<u8>)
    ensures
        spec_read_sym(spec_escape(b) + rest) == (Ok::<Sym, ZError>(Sym::Chr(b)), rest),
{
    let s = spec_escape(b) + rest;
    if needs_escape(b) {
        let e = b ^ 0x40;
        assert(s[0] == ZDLE);
        assert(s.skip(1) =~= seq![e] + rest);
        assert(!is_terminator(e) && !is_flow_byte(e) && e != ZDLE && (e ^ 0x40) == b)
            by (bit_vector)
            requires
                (b == 0x11 || b == 0x13 || b == 0x91 || b == 0x93 || b == 0x18) && e == b ^ 0x40,
        ;
        assert((seq![e] + rest)[0] == e);
        assert((seq![e] + rest).skip(1) =~= rest);
    } else {
        assert(s[0] == b);
        assert(s.skip(1) =~= rest);
    }
}

/// A raw flow-control byte ahead of the stream is dropped by the symbol
/// codec: reading a symbol behaves as if the byte were not there.
pub proof fn lemma_flow_byte_dropped(b: u8, rest: Seq<u8>)
    requires
        is_flow_byte(b),
    ensures
        spec_read_sym(seq![b] + rest) == spec_read_sym(rest),
{
    assert((seq![b] + rest)[0] == b);
    assert((seq![b] + rest).skip(1) =~= rest);
}

/// A pause/resume flow-control byte ahead of the stream is dropped by plain
/// reads as well.
pub proof fn lemma_plain_flow_byte_dropped(b: u8, rest: Seq<u8>)
    requires
        is_plain_flow(b),
    ensures
        spec_read_plain(seq![b] + rest) == spec_read_plain(rest),
{
    assert((seq![b] + rest)[0] == b);
    assert((seq![b] + rest).skip(1) =~= rest);
}

/// Reading back one hex-encoded byte yields exactly that byte.
pub proof fn lemma_read_hex_byte_of_encoding(v: u8, rest: Seq<u8>)
    ensures
        spec_read_hex_byte(seq![spec_hex_digit(v >> 4), spec_hex_digit(v & 0xf)] + rest) == (
            Ok::<u8, ZError>(v),
            rest,
        ),
{
    let hi = v >> 4;
    let lo = v & 0xf;
    assert(hi < 16 && lo < 16 && ((hi << 4) | lo) == v) by (bit_vector)
        requires
            hi == v >> 4 && lo == v & 0xf,
    ;
    let s = seq![spec_hex_digit(hi), spec_hex_digit(lo)] + rest;
    assert(s[0] == spec_hex_digit(hi));
    assert(!is_plain_flow(spec_hex_digit(hi)));
    assert(spec_hex_nibble_val(spec_hex_digit(hi)) == Some(hi));
    assert(s.skip(1) =~= seq![spec_hex_digit(lo)] + rest);
    assert((seq![spec_hex_digit(lo)] + rest)[0] == spec_hex_digit(lo));
    assert(!is_plain_flow(spec_hex_digit(lo)));
    assert(spec_hex_nibble_val(spec_hex_digit(lo)) == Some(lo));
    assert((seq![spec_hex_digit(lo)] + rest).skip(1) =~= rest);
}

/// Reading back a hex-encoded byte sequence yields exactly that sequence.
pub proof fn lemma_read_hex_bytes_of_encoding(bytes: Seq<u8>, rest: Seq<u8>)
    ensures
        spec_read_hex_bytes(spec_hex_bytes(bytes) + rest, bytes.len()) == (
            Ok::<Seq<u8>, ZError>(bytes),
            rest,
        ),
    decreases bytes.len(),
{
    if bytes.len() == 0 {
        assert(spec_hex_bytes(bytes) + rest =~= rest);
        assert(spec_read_hex_bytes(rest, 0) == (Ok::<Seq<u8>, ZError>(Seq::empty()), rest));
        assert(bytes =~= Seq::<u8>::empty());
    } else {
        let v = bytes[0];
        let digits = seq![spec_hex_digit(v >> 4), spec_hex_digit(v & 0xf)];
        assert(spec_hex_bytes(bytes) + rest =~= digits + (spec_hex_bytes(bytes.skip(1)) + rest));
        lemma_read_hex_byte_of_encoding(v, spec_hex_bytes(bytes.skip(1)) + rest);
        lemma_read_hex_bytes_of_encoding(bytes.skip(1), rest);
        assert(seq![v] + bytes.skip(1) =~= bytes);
    }
}

/// Header round trip: the hex encoding of a header with any type and data
/// bytes decodes back to exactly that type and data, leaving the trailing
/// flow-control resume byte (which every later read discards) and the rest of
/// the stream.
pub proof fn lemma_hex_header_round_trip(typ: u8, data: Seq<u8>, rest: Seq<u8>)
    requires
        data.len() == 4,
    ensures
        spec_read_header(spec_hex_header_bytes(typ, data) + rest) == (
            Ok::<(u8, Seq<u8>), ZError>((typ, data)),
            seq![XON] + rest,
        ),
{
    let body = seq![typ] + data;
    let f = spec_crc_of(body);
    let full = body + seq![(f >> 8) as u8, f as u8];
    let hx = spec_hex_bytes(full);
    let tail = seq![0x0du8, 0x0au8, XON] + rest;
    let s = spec_hex_header_bytes(typ, data) + rest;
    reveal_with_fuel(spec_scan_past, 3);
    assert(s =~= seq![0x2au8, 0x2au8, ZDLE, ZHEX] + (hx + tail));

    // Frame start: past the `*`, then past the escape marker.
    assert(s[0] == 0x2a);
    assert(spec_scan_past(s, 0x2a) == (Ok::<(), ZError>(()), s.skip(1)));
    let s1 = s.skip(1);
    assert(s1 =~= seq![0x2au8, ZDLE, ZHEX] + (hx + tail));
    assert(s1[0] == 0x2a && s1[0] != ZDLE);
    assert(s1.skip(1) =~= seq![ZDLE, ZHEX] + (hx + tail));
    assert(s1.skip(1)[0] == ZDLE);
    assert(spec_scan_past(s1, ZDLE) == (Ok::<(), ZError>(()), s1.skip(1).skip(1)));
    let s2 = s1.skip(1).skip(1);
    assert(s2 =~= seq![ZHEX] + (hx + tail));

    // Encoding selector.
    assert(s2[0] == ZHEX && !is_plain_flow(ZHEX));
    assert(spec_read_plain(s2) == (Ok::<u8, ZError>(ZHEX), s2.skip(1)));
    let s3 = s2.skip(1);
    assert(s3 =~= hx + tail);

    // Seven hex bytes, whose CRC finalizes to zero by the CRC round trip.
    lemma_read_hex_bytes_of_encoding(full, tail);
    assert(full.len() == 7);
    assert(spec_read_hex_bytes(s3, 7) == (Ok::<Seq<u8>, ZError>(full), tail));
    lemma_crc_round_trip(body);
    assert(spec_crc_of(full) == 0);

    // Trailing carriage return and line feed.
    assert(tail[0] == 0x0d && !is_plain_flow(0x0d));
    assert(spec_read_plain(tail) == (Ok::<u8, ZError>(0x0d), tail.skip(1)));
    assert(tail.skip(1) =~= seq![0x0au8, XON] + rest);
    assert((seq![0x0au8, XON] + rest)[0] == 0x0a && !is_plain_flow(0x0a));
    assert((seq![0x0au8, XON] + rest).skip(1) =~= seq![XON] + rest);

    assert(full[0] == typ);
    assert(full.subrange(1, 5) =~= data);
}

/// Subpacket data round trip: the escape coding of a payload followed by a
/// terminator symbol decodes back to exactly that payload and terminator,
/// provided the destination has room for the payload.
pub proof fn lemma_subpacket_data_of_encoding(data: Seq<u8>, term: u8, tail: Seq<u8>, cap: nat)
    requires
        is_terminator(term),
        data.len() <= cap,
    ensures
        spec_read_subpacket_data(spec_escape_seq(data) + (seq![ZDLE, term] + tail), cap) == (
            Ok::<u8, ZError>(term),
            tail,
            data,
        ),
    decreases data.len(),
{
    if data.len() == 0 {
        let s = spec_escape_seq(data) + (seq![ZDLE, term] + tail);
        assert(s =~= seq![ZDLE, term] + tail);
        assert(s[0] == ZDLE);
        assert(s.skip(1) =~= seq![term] + tail);
        assert((seq![term] + tail)[0] == term);
        assert((seq![term] + tail).skip(1) =~= tail);
        assert(spec_read_sym(s) == (Ok::<Sym, ZError>(Sym::Esc(term)), tail));
        assert(data =~= Seq::<u8>::empty());
    } else {
        let d0 = data[0];
        let more = spec_escape_seq(data.skip(1)) + (seq![ZDLE, term] + tail);
        let s = spec_escape_seq(data) + (seq![ZDLE, term] + tail);
        assert(s =~= spec_escape(d0) + more);
        lemma_escape_round_trip(d0, more);
        assert(spec_read_sym(s) == (Ok::<Sym, ZError>(Sym::Chr(d0)), more));
        lemma_subpacket_data_of_encoding(data.skip(1), term, tail, (cap - 1) as nat);
        assert(seq![d0] + data.skip(1) =~= data);
    }
}

/// Subpacket round trip: the full encoding of a payload with a terminator and
/// its trailing CRC decodes back to exactly that payload and terminator and
/// passes CRC validation, provided the destination has room for the payload.
pub proof fn lemma_subpacket_round_trip(data: Seq<u8>, term: u8, rest: Seq<u8>, cap: nat)
    requires
        is_terminator(term),
        data.len() <= cap,
    ensures
        spec_read_subpacket(spec_subpacket_bytes(data, term) + rest, cap) == (
            Ok::<u8, ZError>(term),
            rest,
            data,
        ),
{
    let f = spec_crc_of(data + seq![term]);
    let hi = (f >> 8) as u8;
    let lo = f as u8;
    let s = spec_subpacket_bytes(data, term) + rest;
    let tail = spec_escape(hi) + (spec_escape(lo) + rest);
    assert(s =~= spec_escape_seq(data) + (seq![ZDLE, term] + tail));
    lemma_subpacket_data_of_encoding(data, term, tail, cap);
    lemma_escape_round_trip(hi, spec_escape(lo) + rest);
    lemma_escape_round_trip(lo, rest);
    lemma_crc_round_trip(data + seq![term]);
    assert((data + seq![term]) + seq![hi, lo] =~= data + seq![term, hi, lo]);
    assert(spec_crc_finish(spec_crc_seq(0, data + seq![term, hi, lo])) == 0);
}

/// A corrupted trailing CRC byte is rejected: if the second CRC byte of an
/// otherwise intact subpacket encoding is replaced by any other byte, decoding
/// reports a CRC mismatch for that subpacket.
pub proof fn lemma_subpacket_rejects_corrupt_crc(
    data: Seq<u8>,
    term: u8,
    rest: Seq<u8>,
    cap: nat,
    bad: u8,
)
    requires
        is_terminator(term),
        data.len() <= cap,
        bad != spec_crc_of(data + seq![term]) as u8,
    ensures
        spec_read_subpacket(
            spec_escape_seq(data) + (seq![ZDLE, term] + (spec_escape(
                (spec_crc_of(data + seq![term]) >> 8) as u8,
            ) + (spec_escape(bad) + rest))),
            cap,
        ) == (
            Err::<u8, ZError>(ZError::CrcMismatch { site: CrcSite::Subpacket { terminator: term } }),
            rest,
            data,
        ),
{
    let f = spec_crc_of(data + seq![term]);
    let hi = (f >> 8) as u8;
    let lo = f as u8;
    let tail = spec_escape(hi) + (spec_escape(bad) + rest);
    lemma_subpacket_data_of_encoding(data, term, tail, cap);
    lemma_escape_round_trip(hi, spec_escape(bad) + rest);
    lemma_escape_round_trip(bad, rest);
    lemma_crc_round_trip(data + seq![term]);
    assert((data + seq![term]) + seq![hi, lo] =~= data + seq![term, hi, lo]);
    let good = data + seq![term, hi, lo];
    let corrupt = data + seq![term, hi, bad];
    let k = good.len() - 1;
    assert(good[k] == lo && corrupt[k] == bad);
    assert(forall|i: int| 0 <= i < good.len() && i != k ==> good[i] == corrupt[i]);
    lemma_crc_detects_corruption(good, corrupt, k);
    assert(spec_crc_of(good) == 0);
    assert(spec_crc_finish(spec_crc_seq(0, corrupt)) != 0);
}

/// The hex digit (lowercase) for a nibble value.
pub fn enc_nibble(v: u8) -> (r: u8)
    requires
        v < 16,
    ensures
        r == spec_hex_digit(v),
{
    if v >= 10 {
        0x61 + (v - 10)
    } else {
        0x30 + v
    }
}

/// The value of a hex digit (lowercase), if the byte is one.
pub fn dec_nibble(b: u8) -> (r: Option<u8>)
    ensures
        r == spec_hex_nibble_val(b),
{
    if 0x30 <= b && b <= 0x39 {
        Some(b - 0x30)
    } else if 0x61 <= b && b <= 0x66 {
        Some(b - 0x61 + 10)
    } else {
        None
    }
}

/// Append the escape coding of one byte to an outgoing buffer.
pub fn append_escaped(out: &mut Vec<u8>, b: u8)
    ensures
        final(out)@ == old(out)@ + spec_escape(b),
{
    if b == XON || b == XOFF || b == XONESC || b == XOFFESC || b == ZDLE {
        out.push(ZDLE);
        out.push(b ^ 0x40);
        assert(out@ =~= old(out)@ + spec_escape(b));
    } else {
        out.push(b);
        assert(out@ =~= old(out)@ + spec_escape(b));
    }
}

/// Appending one byte to a payload extends its escape coding by the byte's
/// escape coding.
pub proof fn lemma_escape_seq_push(s: Seq<u8>, b: u8)
    ensures
        spec_escape_seq(s.push(b)) == spec_escape_seq(s) + spec_escape(b),
    decreases s.len(),
{
    if s.len() == 0 {
        assert(s.push(b)[0] == b);
        assert(s.push(b).skip(1) =~= Seq::<u8>::empty());
        assert(spec_escape_seq(s.push(b).skip(1)) == Seq::<u8>::empty());
        assert(spec_escape_seq(s.push(b)) == spec_escape(s.push(b)[0]) + spec_escape_seq(
            s.push(b).skip(1),
        ));
        assert(spec_escape(b) + Seq::<u8>::empty() =~= spec_escape(b));
        assert(spec_escape_seq(s) + spec_escape(b) =~= spec_escape(b));
    } else {
        assert(s.push(b)[0] == s[0]);
        assert(s.push(b).skip(1) =~= s.skip(1).push(b));
        lemma_escape_seq_push(s.skip(1), b);
        assert(spec_escape_seq(s.push(b)) =~= spec_escape_seq(s) + spec_escape(b));
    }
}

/// Appending one byte to a sequence extends its hexadecimal encoding by the
/// byte's two digits.
pub proof fn lemma_hex_bytes_push(s: Seq<u8>, b: u8)
    ensures
        spec_hex_bytes(s.push(b)) == spec_hex_bytes(s) + seq![
            spec_hex_digit(b >> 4),
            spec_hex_digit(b & 0xf),
        ],
    decreases s.len(),
{
    let digits = seq![spec_hex_digit(b >> 4), spec_hex_digit(b & 0xf)];
    if s.len() == 0 {
        assert(s.push(b)[0] == b);
        assert(s.push(b).skip(1) =~= Seq::<u8>::empty());
        assert(spec_hex_bytes(s.push(b).skip(1)) == Seq::<u8>::empty());
        assert(digits + Seq::<u8>::empty() =~= digits);
        assert(spec_hex_bytes(s) + digits =~= digits);
    } else {
        assert(s.push(b)[0] == s[0]);
        assert(s.push(b).skip(1) =~= s.skip(1).push(b));
        lemma_hex_bytes_push(s.skip(1), b);
        assert(spec_hex_bytes(s.push(b)) =~= spec_hex_bytes(s) + digits);
    }
}

/// Encode one outgoing subpacket: the escape-coded payload, the terminator
/// symbol, and the two escape-coded CRC bytes.
pub fn encode_subpacket(data: &[u8], term: u8) -> (r: Vec<u8>)
    ensures
        r@ == spec_subpacket_bytes(data@, term),
{
    let ghost all = data@;
    let mut out: Vec<u8> = Vec::new();
    let mut crc = Crc16(0);
    let mut i: usize = 0;
    proof {
        assert(all.take(0) =~= Seq::<u8>::empty());
    }
    while i < data.len()
        invariant
            i <= data.len(),
            all == data@,
            out@ == spec_escape_seq(all.take(i as int)),
            crc.0 == spec_crc_seq(0, all.take(i as int)),
        decreases data.len() - i,
    {
        append_escaped(&mut out, data[i]);
        crc.update(data[i]);
        proof {
            assert(all.take(i + 1) =~= all.take(i as int).push(all[i as int]));
            lemma_escape_seq_push(all.take(i as int), all[i as int]);
            lemma_crc_seq_push(0, all.take(i as int), all[i as int]);
        }
        i = i + 1;
    }
    proof {
        assert(all.take(data@.len() as int) =~= all);
    }
    out.push(ZDLE);
    out.push(term);
    crc.update(term);
    proof {
        lemma_crc_seq_push(0, all, term);
        assert(all.push(term) =~= all + seq![term]);
    }
    let f = crc.finish();
    let hi: u8 = (f >> 8) as u8;
    let lo: u8 = (f & 0xff) as u8;
    assert(hi == (spec_crc_of(all + seq![term]) >> 8) as u8 && lo == spec_crc_of(
        all + seq![term],
    ) as u8) by {
        assert((f & 0xff) as u8 == f as u8) by (bit_vector);
    }
    append_escaped(&mut out, hi);
    append_escaped(&mut out, lo);
    proof {
        assert(out@ =~= spec_subpacket_bytes(all, term));
    }
    out
}

} // verus!
