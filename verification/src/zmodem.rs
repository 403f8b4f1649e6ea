//! The receiver engine: symbol reads, header codec, subpacket decoder and the
//! fixed handshake sequence, generic over the transport capabilities.
//!
//! Each decoder is specified exactly against the corresponding `spec_read_*`
//! function of `wire` applied to the source's remaining bytes, and each
//! encoder against the corresponding `spec_*_bytes` function.

use vstd::prelude::*;

use crate::buffer::DestBuffer;
use crate::crc::lemma_crc_seq_push;
use crate::crc::spec_crc_of;
use crate::crc::spec_crc_seq;
use crate::crc::Crc16;
use crate::error::CrcSite;
use crate::error::ZError;
use crate::transport::ByteSink;
use crate::transport::ByteSource;
use crate::wire::dec_nibble;
use crate::wire::enc_nibble;
use crate::wire::is_flow_byte;
use crate::wire::lemma_flow_byte_dropped;
use crate::wire::lemma_hex_bytes_push;
use crate::wire::lemma_hex_header_round_trip;
use crate::wire::lemma_read_subpacket_consumes;
use crate::wire::lemma_read_sym_consumes;
use crate::wire::lemma_subpacket_round_trip;
use crate::wire::spec_hex_bytes;
use crate::wire::spec_hex_header_bytes;
use crate::wire::spec_read_hex_byte;
use crate::wire::spec_read_hex_bytes;
use crate::wire::spec_read_literals;
use crate::wire::spec_read_bin16_header;
use crate::wire::spec_read_header;
use crate::wire::spec_read_hex_header;
use crate::wire::spec_read_plain;
use crate::wire::spec_read_subpacket;
use crate::wire::spec_read_subpacket_data;
use crate::wire::spec_read_sym;
use crate::wire::spec_scan_past;
use crate::wire::spec_subpacket_bytes;
use crate::wire::Sym;
use crate::wire::XOFF;
use crate::wire::XOFFESC;
use crate::wire::XON;
use crate::wire::XONESC;
use crate::wire::ZBIN;
use crate::wire::ZCRCE;
use crate::wire::ZCRCG;
use crate::wire::ZCRCQ;
use crate::wire::ZCRCW;
use crate::wire::ZDATA;
use crate::wire::ZDLE;
use crate::wire::ZEOF;
use crate::wire::ZFILE;
use crate::wire::ZFIN;
use crate::wire::ZHEX;
use crate::wire::ZRINIT;
use crate::wire::ZRPOS;
use crate::wire::ZRQINIT;

verus! {

/// A decoded frame header: one type byte and four auxiliary data bytes.
#[derive(Clone, Copy, PartialEq, Eq, Debug)]
pub struct Header {
    /// The frame type.
    pub typ: u8,
    /// The four protocol-defined data bytes.
    pub data: [u8; 4],
}

/// A decoded subpacket: its terminator class and how many payload bytes were
/// written into the destination buffer.
#[derive(Clone, Copy, PartialEq, Eq, Debug)]
pub struct Subpacket {
    /// The terminator code that ended the subpacket.
    pub typ: u8,
    /// The number of payload bytes written.
    pub len: usize,
}

/// The position of the first zero byte, if any.
pub open spec fn spec_find_zero(s: Seq<u8>) -> Option<int>
    decreases s.len(),
{
    if s.len() == 0 {
        None
    } else if s[0] == 0 {
        Some(0)
    } else {
        match spec_find_zero(s.skip(1)) {
            None => None,
            Some(i) => Some(i + 1),
        }
    }
}

/// The file name carried by a file-information subpacket: its bytes up to the
/// first zero byte, or empty when it has none.
pub open spec fn spec_filename(s: Seq<u8>) -> Seq<u8> {
    match spec_find_zero(s) {
        None => Seq::empty(),
        Some(i) => s.take(i),
    }
}

/// A zero byte behind an all-nonzero prefix is the first one.
pub proof fn lemma_find_zero_some(s: Seq<u8>, i: int)
    requires
        0 <= i < s.len(),
        s[i] == 0,
        forall|j: int| 0 <= j < i ==> s[j] != 0,
    ensures
        spec_find_zero(s) == Some(i),
    decreases i,
{
    if i > 0 {
        assert forall|j: int| 0 <= j < i - 1 implies s.skip(1)[j] != 0 by {
            assert(s.skip(1)[j] == s[j + 1]);
        }
        assert(s.skip(1)[i - 1] == s[i]);
        lemma_find_zero_some(s.skip(1), i - 1);
    }
}

/// A sequence without zero bytes has no first zero byte.
pub proof fn lemma_find_zero_none(s: Seq<u8>)
    requires
        forall|j: int| 0 <= j < s.len() ==> s[j] != 0,
    ensures
        spec_find_zero(s) is None,
    decreases s.len(),
{
    if s.len() > 0 {
        assert forall|j: int| 0 <= j < s.skip(1).len() implies s.skip(1)[j] != 0 by {
            assert(s.skip(1)[j] == s[j + 1]);
        }
        lemma_find_zero_none(s.skip(1));
    }
}

/// Extract the file name from the decoded bytes of a file-information
/// subpacket: the bytes up to the first zero byte, or empty when there is
/// none.
#[verifier::loop_isolation(false)]
pub fn filename_of(bytes: &[u8]) -> (r: Vec<u8>)
    ensures
        r@ == spec_filename(bytes@),
{
    let mut idx: usize = 0;
    while idx < bytes.len() && bytes[idx] != 0
        invariant
            idx <= bytes@.len(),
            forall|j: int| 0 <= j < idx ==> bytes@[j] != 0,
        decreases bytes@.len() - idx,
    {
        idx = idx + 1;
    }
    let mut name: Vec<u8> = Vec::new();
    if idx < bytes.len() {
        proof {
            lemma_find_zero_some(bytes@, idx as int);
        }
        let mut j: usize = 0;
        while j < idx
            invariant
                j <= idx,
                idx <= bytes@.len(),
                name@ == bytes@.take(j as int),
            decreases idx - j,
        {
            name.push(bytes[j]);
            proof {
                assert(bytes@.take(j as int).push(bytes@[j as int]) =~= bytes@.take(j + 1));
            }
            j = j + 1;
        }
    } else {
        proof {
            lemma_find_zero_none(bytes@);
        }
    }
    name
}

/// The four all-zero auxiliary data bytes of this receiver's replies.
pub open spec fn zeros4() -> Seq<u8> {
    seq![0u8, 0u8, 0u8, 0u8]
}

/// What the data phase (the subpacket-continuation loop) does: subpackets are
/// appended to the destination while their terminator announces more, until
/// one announces the end; the two reserved terminators are not acted on.
/// Yields the outcome, the bytes left over, and all payload bytes written.
pub open spec fn spec_data_phase(s: Seq<u8>, cap: nat) -> (Result<(), ZError>, Seq<u8>, Seq<u8>)
    decreases s.len(),
{
    let (r, s1, w) = spec_read_subpacket(s, cap);
    match r {
        Err(e) => (Err(e), s1, w),
        Ok(t) => {
            if t == ZCRCE {
                (Ok(()), s1, w)
            } else if t == ZCRCG {
                proof {
                    lemma_read_subpacket_consumes(s, cap);
                }
                let rem = if w.len() <= cap {
                    (cap - w.len()) as nat
                } else {
                    0
                };
                let (r2, s2, w2) = spec_data_phase(s1, rem);
                (r2, s2, w + w2)
            } else {
                (Err(ZError::UnsupportedSymbol { byte: t }), s1, w)
            }
        },
    }
}

/// What a whole session does to the byte streams, as a function of the
/// incoming bytes and the destination's remaining capacity.
pub struct SessionSpec {
    /// The decoded file name on success, or the fatal condition.
    pub outcome: Result<Seq<u8>, ZError>,
    /// The incoming bytes left undelivered.
    pub rest: Seq<u8>,
    /// The payload bytes written to the destination.
    pub written: Seq<u8>,
    /// The reply bytes handed to the sink.
    pub sent: Seq<u8>,
}

/// The fixed handshake sequence: expect ZRQINIT and reply ZRINIT; expect
/// ZFILE, read the file-information subpacket and reply ZRPOS; expect ZDATA
/// and run the data phase; expect ZEOF and reply ZRINIT; expect ZFIN and
/// reply ZFIN.  A header of any other type at any step is a framing error,
/// and every error of a decode step is final.
pub open spec fn spec_session(s: Seq<u8>, cap: nat) -> SessionSpec {
    let (h1, s1) = spec_read_header(s);
    match h1 {
        Err(e) => SessionSpec {
            outcome: Err(e),
            rest: s1,
            written: Seq::empty(),
            sent: Seq::empty(),
        },
        Ok((t1, _d1)) => {
            if t1 != ZRQINIT {
                SessionSpec {
                    outcome: Err(ZError::FramingError { expected: ZRQINIT, actual: t1 }),
                    rest: s1,
                    written: Seq::empty(),
                    sent: Seq::empty(),
                }
            } else {
                let sent1 = spec_hex_header_bytes(ZRINIT, zeros4());
                let (h2, s2) = spec_read_header(s1);
                match h2 {
                    Err(e) => SessionSpec {
                        outcome: Err(e),
                        rest: s2,
                        written: Seq::empty(),
                        sent: sent1,
                    },
                    Ok((t2, _d2)) => {
                        if t2 != ZFILE {
                            SessionSpec {
                                outcome: Err(ZError::FramingError { expected: ZFILE, actual: t2 }),
                                rest: s2,
                                written: Seq::empty(),
                                sent: sent1,
                            }
                        } else {
                            let (rf, s3, wf) = spec_read_subpacket(s2, 64);
                            match rf {
                                Err(e) => SessionSpec {
                                    outcome: Err(e),
                                    rest: s3,
                                    written: Seq::empty(),
                                    sent: sent1,
                                },
                                Ok(_tf) => {
                                    let name = spec_filename(wf);
                                    let sent2 = sent1 + spec_hex_header_bytes(ZRPOS, zeros4());
                                    let (h3, s4) = spec_read_header(s3);
                                    match h3 {
                                        Err(e) => SessionSpec {
                                            outcome: Err(e),
                                            rest: s4,
                                            written: Seq::empty(),
                                            sent: sent2,
                                        },
                                        Ok((t3, _d3)) => {
                                            if t3 != ZDATA {
                                                SessionSpec {
                                                    outcome: Err(
                                                        ZError::FramingError {
                                                            expected: ZDATA,
                                                            actual: t3,
                                                        },
                                                    ),
                                                    rest: s4,
                                                    written: Seq::empty(),
                                                    sent: sent2,
                                                }
                                            } else {
                                                let (rd, s5, wd) = spec_data_phase(s4, cap);
                                                match rd {
                                                    Err(e) => SessionSpec {
                                                        outcome: Err(e),
                                                        rest: s5,
                                                        written: wd,
                                                        sent: sent2,
                                                    },
                                                    Ok(_) => spec_session_tail(s5, wd, name, sent2),
                                                }
                                            }
                                        },
                                    }
                                },
                            }
                        }
                    },
                }
            }
        },
    }
}

/// The closing steps of the handshake, after the data phase: expect ZEOF and
/// reply ZRINIT; expect ZFIN and reply ZFIN.
pub open spec fn spec_session_tail(
    s: Seq<u8>,
    written: Seq<u8>,
    name: Seq<u8>,
    sent: Seq<u8>,
) -> SessionSpec {
    let (h4, s6) = spec_read_header(s);
    match h4 {
        Err(e) => SessionSpec { outcome: Err(e), rest: s6, written, sent },
        Ok((t4, _d4)) => {
            if t4 != ZEOF {
                SessionSpec {
                    outcome: Err(ZError::FramingError { expected: ZEOF, actual: t4 }),
                    rest: s6,
                    written,
                    sent,
                }
            } else {
                let sent3 = sent + spec_hex_header_bytes(ZRINIT, zeros4());
                let (h5, s7) = spec_read_header(s6);
                match h5 {
                    Err(e) => SessionSpec { outcome: Err(e), rest: s7, written, sent: sent3 },
                    Ok((t5, _d5)) => {
                        if t5 != ZFIN {
                            SessionSpec {
                                outcome: Err(ZError::FramingError { expected: ZFIN, actual: t5 }),
                                rest: s7,
                                written,
                                sent: sent3,
                            }
                        } else {
                            SessionSpec {
                                outcome: Ok(name),
                                rest: s7,
                                written,
                                sent: sent3 + spec_hex_header_bytes(ZFIN, zeros4()),
                            }
                        }
                    },
                }
            }
        },
    }
}

/// The protocol engine: reads from a byte source, replies into a byte sink.
pub struct ZModem<R: ByteSource, W: ByteSink> {
    /// The byte source the escape-coded stream arrives on.
    pub rx: R,
    /// The byte sink outgoing headers are written to.
    pub tx: W,
}

impl<R: ByteSource, W: ByteSink> ZModem<R, W> {
    /// The bytes the source will still deliver.
    pub open spec fn incoming(&self) -> Seq<u8> {
        self.rx.incoming()
    }

    /// The bytes handed to the sink so far.
    pub open spec fn sent(&self) -> Seq<u8> {
        self.tx.sent()
    }

    /// An engine over the given transport pair.
    pub fn new(rx: R, tx: W) -> (r: Self)
        ensures
            r.rx == rx,
            r.tx == tx,
    {
        ZModem { rx, tx }
    }

    /// Plain/ASCII read: discard pause/resume flow-control bytes and return
    /// the next byte unchanged.
    #[verifier::loop_isolation(false)]
    pub fn rx_ascii(&mut self) -> (r: Result<u8, ZError>)
        ensures
            (r, final(self).incoming()) == spec_read_plain(old(self).incoming()),
            final(self).tx == old(self).tx,
    {
        let ghost s0 = self.rx.incoming();
        let ghost tx0 = self.tx;
        loop
            invariant
                spec_read_plain(self.rx.incoming()) == spec_read_plain(s0),
                self.tx == tx0,
            decreases self.rx.incoming().len(),
        {
            match self.rx.recv_byte() {
                None => {
                    return Err(ZError::SourceExhausted);
                },
                Some(b) => {
                    if !(b == XON || b == XOFF) {
                        return Ok(b);
                    }
                },
            }
        }
    }

    /// Escaped/binary read: discard flow-control forms; after the escape
    /// marker, a recognized terminator code is a control symbol and anything
    /// else is un-escaped by XOR with 0x40; any other byte is a literal.
    #[verifier::loop_isolation(false)]
    pub fn rx_bin(&mut self) -> (r: Result<Sym, ZError>)
        ensures
            (r, final(self).incoming()) == spec_read_sym(old(self).incoming()),
            final(self).tx == old(self).tx,
    {
        let ghost s0 = self.rx.incoming();
        let ghost tx0 = self.tx;
        loop
            invariant
                spec_read_sym(self.rx.incoming()) == spec_read_sym(s0),
                self.tx == tx0,
            decreases self.rx.incoming().len(),
        {
            match self.rx.recv_byte() {
                None => {
                    return Err(ZError::SourceExhausted);
                },
                Some(b) => {
                    if b == ZDLE {
                        break;
                    } else if b == XON || b == XOFF || b == XONESC || b == XOFFESC {
                    } else {
                        return Ok(Sym::Chr(b));
                    }
                },
            }
        }
        loop
            invariant
                crate::wire::spec_read_escaped(self.rx.incoming()) == spec_read_sym(s0),
                self.tx == tx0,
            decreases self.rx.incoming().len(),
        {
            match self.rx.recv_byte() {
                None => {
                    return Err(ZError::SourceExhausted);
                },
                Some(b) => {
                    if b == ZCRCE || b == ZCRCG || b == ZCRCQ || b == ZCRCW {
                        return Ok(Sym::Esc(b));
                    } else if b == XON || b == XOFF || b == XONESC || b == XOFFESC {
                    } else {
                        return Ok(Sym::Chr(b ^ 0x40));
                    }
                },
            }
        }
    }

    /// Write raw bytes to the sink unchanged.
    #[verifier::loop_isolation(false)]
    pub fn tx_bin(&mut self, data: &[u8])
        ensures
            final(self).tx.sent() == old(self).tx.sent() + data@,
            final(self).rx == old(self).rx,
    {
        let ghost sent0 = self.tx.sent();
        let ghost rx0 = self.rx;
        let mut i: usize = 0;
        proof {
            assert(sent0 + data@.take(0) =~= sent0);
        }
        while i < data.len()
            invariant
                i <= data.len(),
                self.tx.sent() == sent0 + data@.take(i as int),
                self.rx == rx0,
            decreases data.len() - i,
        {
            self.tx.send_byte(data[i]);
            proof {
                assert((sent0 + data@.take(i as int)).push(data@[i as int]) =~= sent0 + data@.take(
                    i + 1,
                ));
            }
            i = i + 1;
        }
        proof {
            assert(data@.take(data@.len() as int) =~= data@);
        }
    }

    /// Write bytes to the sink in hexadecimal encoding, two lowercase digits
    /// per byte, high nibble first.
    #[verifier::loop_isolation(false)]
    pub fn tx_hex(&mut self, data: &[u8])
        ensures
            final(self).tx.sent() == old(self).tx.sent() + spec_hex_bytes(data@),
            final(self).rx == old(self).rx,
    {
        let ghost sent0 = self.tx.sent();
        let ghost rx0 = self.rx;
        let mut i: usize = 0;
        proof {
            assert(data@.take(0) =~= Seq::<u8>::empty());
            assert(sent0 + spec_hex_bytes(data@.take(0)) =~= sent0);
        }
        while i < data.len()
            invariant
                i <= data.len(),
                self.tx.sent() == sent0 + spec_hex_bytes(data@.take(i as int)),
                self.rx == rx0,
            decreases data.len() - i,
        {
            let b = data[i];
            proof {
                assert(b >> 4 < 16 && b & 0xf < 16) by (bit_vector);
            }
            self.tx.send_byte(enc_nibble(b >> 4));
            self.tx.send_byte(enc_nibble(b & 0xf));
            proof {
                lemma_hex_bytes_push(data@.take(i as int), b);
                assert(data@.take(i as int).push(b) =~= data@.take(i + 1));
                assert((sent0 + spec_hex_bytes(data@.take(i as int))).push(
                    crate::wire::spec_hex_digit(b >> 4),
                ).push(crate::wire::spec_hex_digit(b & 0xf)) =~= sent0 + spec_hex_bytes(
                    data@.take(i + 1),
                ));
            }
            i = i + 1;
        }
        proof {
            assert(data@.take(data@.len() as int) =~= data@);
        }
    }

    /// Read one byte encoded as two plain hexadecimal digits.
    pub fn rx_hex_byte(&mut self) -> (r: Result<u8, ZError>)
        ensures
            (r, final(self).incoming()) == spec_read_hex_byte(old(self).incoming()),
            final(self).tx == old(self).tx,
    {
        let c1 = match self.rx_ascii() {
            Ok(c) => c,
            Err(e) => {
                return Err(e);
            },
        };
        let hi = match dec_nibble(c1) {
            Some(v) => v,
            None => {
                return Err(ZError::UnsupportedSymbol { byte: c1 });
            },
        };
        let c2 = match self.rx_ascii() {
            Ok(c) => c,
            Err(e) => {
                return Err(e);
            },
        };
        let lo = match dec_nibble(c2) {
            Some(v) => v,
            None => {
                return Err(ZError::UnsupportedSymbol { byte: c2 });
            },
        };
        Ok((hi << 4) | lo)
    }

    /// Encode and send one header in hexadecimal form: frame start, selector,
    /// hex-encoded type, data and CRC, then carriage return, line feed and one
    /// flow-control resume byte.
    #[verifier::loop_isolation(false)]
    pub fn tx_hex_header(&mut self, typ: u8, data: [u8; 4])
        ensures
            final(self).tx.sent() == old(self).tx.sent() + spec_hex_header_bytes(typ, data@),
            final(self).rx == old(self).rx,
    {
        let ghost sent0 = self.tx.sent();
        let mut full: Vec<u8> = Vec::new();
        full.push(typ);
        full.push(data[0]);
        full.push(data[1]);
        full.push(data[2]);
        full.push(data[3]);
        proof {
            assert(full@ =~= seq![typ] + data@);
        }
        let ghost body = seq![typ] + data@;
        let mut crc = Crc16(0);
        let mut i: usize = 0;
        proof {
            assert(full@.take(0) =~= Seq::<u8>::empty());
        }
        while i < full.len()
            invariant
                i <= full@.len(),
                crc.0 == spec_crc_seq(0, full@.take(i as int)),
            decreases full@.len() - i,
        {
            crc.update(full[i]);
            proof {
                assert(full@.take(i + 1) =~= full@.take(i as int).push(full@[i as int]));
                lemma_crc_seq_push(0, full@.take(i as int), full@[i as int]);
            }
            i = i + 1;
        }
        proof {
            assert(full@.take(full@.len() as int) =~= full@);
        }
        let f = crc.finish();
        let hi: u8 = (f >> 8) as u8;
        let lo: u8 = (f & 0xff) as u8;
        proof {
            assert((f & 0xff) as u8 == f as u8) by (bit_vector);
            assert(f == spec_crc_of(body));
        }
        full.push(hi);
        full.push(lo);
        proof {
            assert(full@ =~= body + seq![
                (spec_crc_of(body) >> 8) as u8,
                spec_crc_of(body) as u8,
            ]);
        }
        self.tx.send_byte(0x2a);
        self.tx.send_byte(0x2a);
        self.tx.send_byte(ZDLE);
        self.tx.send_byte(ZHEX);
        self.tx_hex(full.as_slice());
        self.tx.send_byte(0x0d);
        self.tx.send_byte(0x0a);
        self.tx.send_byte(XON);
        proof {
            assert(self.tx.sent() =~= sent0 + spec_hex_header_bytes(typ, data@));
        }
    }

    /// Decode the seven hex-encoded header bytes, validate their CRC, and
    /// consume the trailing carriage return (plus one more byte after it).
    #[verifier::loop_isolation(false)]
    pub fn rx_hex_header(&mut self) -> (r: Result<Header, ZError>)
        ensures
            ({
                let (pr, rest) = spec_read_hex_header(old(self).incoming());
                final(self).incoming() == rest && match pr {
                    Ok((t, d)) => r matches Ok(h) && h.typ == t && h.data@ == d,
                    Err(e) => r == Err::<Header, ZError>(e),
                }
            }),
            final(self).tx == old(self).tx,
    {
        let ghost s0 = self.rx.incoming();
        let mut buf: Vec<u8> = Vec::new();
        let mut crc = Crc16(0);
        let mut i: usize = 0;
        proof {
            assert(Seq::<u8>::empty() + spec_read_hex_bytes(s0, 7).1 =~= spec_read_hex_bytes(
                s0,
                7,
            ).1);
        }
        while i < 7
            invariant
                i <= 7,
                buf@.len() == i,
                crc.0 == spec_crc_seq(0, buf@),
                ({
                    let (fr, frest) = spec_read_hex_bytes(self.rx.incoming(), (7 - i) as nat);
                    let (gr, grest) = spec_read_hex_bytes(s0, 7);
                    grest == frest && match fr {
                        Ok(bs) => gr == Ok::<Seq<u8>, ZError>(buf@ + bs),
                        Err(e) => gr == Err::<Seq<u8>, ZError>(e),
                    }
                }),
                self.tx == old(self).tx,
            decreases 7 - i,
        {
            let ghost prev = self.rx.incoming();
            let ghost n = (7 - i) as nat;
            let b = match self.rx_hex_byte() {
                Ok(b) => b,
                Err(e) => {
                    return Err(e);
                },
            };
            let ghost bufp = buf@;
            crc.update(b);
            buf.push(b);
            proof {
                lemma_crc_seq_push(0, bufp, b);
                assert((7 - (i + 1)) as nat == (n - 1) as nat);
                let (fr2, frest2) = spec_read_hex_bytes(self.rx.incoming(), (n - 1) as nat);
                match fr2 {
                    Ok(bs) => {
                        assert(spec_read_hex_bytes(prev, n).0 == Ok::<Seq<u8>, ZError>(
                            seq![b] + bs,
                        ));
                        assert(bufp + (seq![b] + bs) =~= buf@ + bs);
                    },
                    Err(e) => {
                        assert(spec_read_hex_bytes(prev, n).0 == Err::<Seq<u8>, ZError>(e));
                    },
                }
            }
            i = i + 1;
        }
        proof {
            assert(buf@ + Seq::<u8>::empty() =~= buf@);
        }
        let ghost bs = buf@;
        let f = crc.finish();
        if f != 0 {
            return Err(
                ZError::CrcMismatch {
                    site: CrcSite::HexHeader {
                        typ: buf[0],
                        d0: buf[1],
                        d1: buf[2],
                        d2: buf[3],
                        d3: buf[4],
                    },
                },
            );
        }
        let c = match self.rx_ascii() {
            Ok(c) => c,
            Err(e) => {
                return Err(e);
            },
        };
        if c == 0x0d {
            match self.rx_ascii() {
                Ok(_) => {},
                Err(e) => {
                    return Err(e);
                },
            };
        }
        let h = Header { typ: buf[0], data: [buf[1], buf[2], buf[3], buf[4]] };
        proof {
            assert(h.data@ =~= bs.subrange(1, 5));
        }
        Ok(h)
    }

    /// Decode the seven raw binary header bytes, each of which must be a
    /// literal symbol, and validate their CRC.
    #[verifier::loop_isolation(false)]
    pub fn rx_bin16_header(&mut self) -> (r: Result<Header, ZError>)
        ensures
            ({
                let (pr, rest) = spec_read_bin16_header(old(self).incoming());
                final(self).incoming() == rest && match pr {
                    Ok((t, d)) => r matches Ok(h) && h.typ == t && h.data@ == d,
                    Err(e) => r == Err::<Header, ZError>(e),
                }
            }),
            final(self).tx == old(self).tx,
    {
        let ghost s0 = self.rx.incoming();
        let mut buf: Vec<u8> = Vec::new();
        let mut crc = Crc16(0);
        let mut i: usize = 0;
        proof {
            assert(Seq::<u8>::empty() + spec_read_literals(s0, 7).1 =~= spec_read_literals(
                s0,
                7,
            ).1);
        }
        while i < 7
            invariant
                i <= 7,
                buf@.len() == i,
                crc.0 == spec_crc_seq(0, buf@),
                ({
                    let (fr, frest) = spec_read_literals(self.rx.incoming(), (7 - i) as nat);
                    let (gr, grest) = spec_read_literals(s0, 7);
                    grest == frest && match fr {
                        Ok(bs) => gr == Ok::<Seq<u8>, ZError>(buf@ + bs),
                        Err(e) => gr == Err::<Seq<u8>, ZError>(e),
                    }
                }),
                self.tx == old(self).tx,
            decreases 7 - i,
        {
            let ghost prev = self.rx.incoming();
            let ghost n = (7 - i) as nat;
            let b = match self.rx_bin() {
                Ok(Sym::Chr(b)) => b,
                Ok(Sym::Esc(t)) => {
                    return Err(ZError::UnsupportedSymbol { byte: t });
                },
                Err(e) => {
                    return Err(e);
                },
            };
            let ghost bufp = buf@;
            crc.update(b);
            buf.push(b);
            proof {
                lemma_crc_seq_push(0, bufp, b);
                assert((7 - (i + 1)) as nat == (n - 1) as nat);
                let (fr2, frest2) = spec_read_literals(self.rx.incoming(), (n - 1) as nat);
                match fr2 {
                    Ok(bs) => {
                        assert(spec_read_literals(prev, n).0 == Ok::<Seq<u8>, ZError>(
                            seq![b] + bs,
                        ));
                        assert(bufp + (seq![b] + bs) =~= buf@ + bs);
                    },
                    Err(e) => {
                        assert(spec_read_literals(prev, n).0 == Err::<Seq<u8>, ZError>(e));
                    },
                }
            }
            i = i + 1;
        }
        proof {
            assert(buf@ + Seq::<u8>::empty() =~= buf@);
        }
        let ghost bs = buf@;
        let f = crc.finish();
        if f != 0 {
            return Err(
                ZError::CrcMismatch {
                    site: CrcSite::BinHeader {
                        typ: buf[0],
                        d0: buf[1],
                        d1: buf[2],
                        d2: buf[3],
                        d3: buf[4],
                    },
                },
            );
        }
        let h = Header { typ: buf[0], data: [buf[1], buf[2], buf[3], buf[4]] };
        proof {
            assert(h.data@ =~= bs.subrange(1, 5));
        }
        Ok(h)
    }

    /// Recognize a frame start and decode one header in whichever of the two
    /// encodings the selector byte announces.
    #[verifier::loop_isolation(false)]
    pub fn rx_header(&mut self) -> (r: Result<Header, ZError>)
        ensures
            ({
                let (pr, rest) = spec_read_header(old(self).incoming());
                final(self).incoming() == rest && match pr {
                    Ok((t, d)) => r matches Ok(h) && h.typ == t && h.data@ == d,
                    Err(e) => r == Err::<Header, ZError>(e),
                }
            }),
            final(self).tx == old(self).tx,
    {
        let ghost s0 = self.rx.incoming();
        loop
            invariant
                spec_scan_past(self.rx.incoming(), 0x2a) == spec_scan_past(s0, 0x2a),
                self.tx == old(self).tx,
            decreases self.rx.incoming().len(),
        {
            match self.rx.recv_byte() {
                None => {
                    return Err(ZError::SourceExhausted);
                },
                Some(b) => {
                    if b == 0x2a {
                        break;
                    }
                },
            }
        }
        let ghost s1 = spec_scan_past(s0, 0x2a).1;
        loop
            invariant
                spec_scan_past(self.rx.incoming(), ZDLE) == spec_scan_past(s1, ZDLE),
                self.tx == old(self).tx,
            decreases self.rx.incoming().len(),
        {
            match self.rx.recv_byte() {
                None => {
                    return Err(ZError::SourceExhausted);
                },
                Some(b) => {
                    if b == ZDLE {
                        break;
                    }
                },
            }
        }
        let sel = match self.rx_ascii() {
            Ok(c) => c,
            Err(e) => {
                return Err(e);
            },
        };
        if sel == ZHEX {
            self.rx_hex_header()
        } else if sel == ZBIN {
            self.rx_bin16_header()
        } else {
            Err(ZError::UnsupportedSymbol { byte: sel })
        }
    }

    /// Decode one subpacket into the destination buffer: literal symbols are
    /// appended at the cursor until a terminator symbol arrives, then the two
    /// trailing CRC bytes are read and the accumulator must finalize to zero.
    /// A literal that arrives with no room left is a buffer overrun.
    #[verifier::loop_isolation(false)]
    pub fn rx_subpacket(&mut self, dest: &mut DestBuffer) -> (r: Result<Subpacket, ZError>)
        requires
            old(dest).wf(),
        ensures
            ({
                let cap = (old(dest).spec_capacity() - old(dest)@.len()) as nat;
                let (pr, rest, w) = spec_read_subpacket(old(self).incoming(), cap);
                final(self).incoming() == rest && final(dest)@ == old(dest)@ + w
                    && final(dest).spec_capacity() == old(dest).spec_capacity()
                    && final(dest).wf() && match pr {
                    Ok(t) => r matches Ok(sp) && sp.typ == t && sp.len == w.len(),
                    Err(e) => r == Err::<Subpacket, ZError>(e),
                }
            }),
            final(self).tx == old(self).tx,
    {
        let ghost s0 = self.rx.incoming();
        let ghost d0 = old(dest)@;
        let ghost cap0 = (old(dest).spec_capacity() - old(dest)@.len()) as nat;
        let mut crc = Crc16(0);
        let mut count: usize = 0;
        proof {
            assert(d0.skip(d0.len() as int) =~= Seq::<u8>::empty());
            assert(Seq::<u8>::empty() + spec_read_subpacket_data(s0, cap0).2
                =~= spec_read_subpacket_data(s0, cap0).2);
        }
        loop
            invariant
                dest.wf(),
                dest.spec_capacity() == old(dest).spec_capacity(),
                dest@.len() == d0.len() + count,
                dest@.take(d0.len() as int) == d0,
                crc.0 == spec_crc_seq(0, dest@.skip(d0.len() as int)),
                ({
                    let w1 = dest@.skip(d0.len() as int);
                    let (fr, frest, fw) = spec_read_subpacket_data(
                        self.rx.incoming(),
                        (cap0 - w1.len()) as nat,
                    );
                    w1.len() <= cap0 && spec_read_subpacket_data(s0, cap0) == (
                        fr,
                        frest,
                        w1 + fw,
                    )
                }),
                self.tx == old(self).tx,
            decreases self.rx.incoming().len(),
        {
            let ghost prev = self.rx.incoming();
            let ghost w1 = dest@.skip(d0.len() as int);
            let sym = match self.rx_bin() {
                Ok(s) => s,
                Err(e) => {
                    proof {
                        assert(dest@ =~= d0 + w1);
                        assert(w1 + Seq::<u8>::empty() =~= w1);
                    }
                    return Err(e);
                },
            };
            proof {
                lemma_read_sym_consumes(prev);
            }
            match sym {
                Sym::Esc(t) => {
                    crc.update(t);
                    proof {
                        lemma_crc_seq_push(0, w1, t);
                        assert(w1 + Seq::<u8>::empty() =~= w1);
                        assert(dest@ =~= d0 + w1);
                    }
                    let y1 = match self.rx_bin() {
                        Ok(s) => s.as_u8(),
                        Err(e) => {
                            return Err(e);
                        },
                    };
                    crc.update(y1);
                    let y2 = match self.rx_bin() {
                        Ok(s) => s.as_u8(),
                        Err(e) => {
                            return Err(e);
                        },
                    };
                    crc.update(y2);
                    proof {
                        lemma_crc_seq_push(0, w1.push(t), y1);
                        lemma_crc_seq_push(0, w1.push(t).push(y1), y2);
                        assert(w1.push(t).push(y1).push(y2) =~= w1 + seq![t, y1, y2]);
                    }
                    let f = crc.finish();
                    if f != 0 {
                        return Err(
                            ZError::CrcMismatch { site: CrcSite::Subpacket { terminator: t } },
                        );
                    }
                    return Ok(Subpacket { typ: t, len: count });
                },
                Sym::Chr(b) => {
                    let room = dest.capacity() - dest.len();
                    if room == 0 {
                        proof {
                            assert(dest@ =~= d0 + w1);
                            assert(w1 + Seq::<u8>::empty() =~= w1);
                        }
                        return Err(ZError::BufferOverrun);
                    }
                    dest.push_byte(b);
                    crc.update(b);
                    count = count + 1;
                    proof {
                        assert(dest@.take(d0.len() as int) =~= d0);
                        assert(dest@.skip(d0.len() as int) =~= w1.push(b));
                        lemma_crc_seq_push(0, w1, b);
                        let w2 = dest@.skip(d0.len() as int);
                        let (fr2, frest2, fw2) = spec_read_subpacket_data(
                            self.rx.incoming(),
                            (cap0 - w2.len()) as nat,
                        );
                        assert(w1 + (seq![b] + fw2) =~= w2 + fw2);
                    }
                },
            }
        }
    }

    /// Receive one file: run the fixed handshake, write every data subpacket's
    /// payload into the destination buffer at its cursor, and return how many
    /// payload bytes were written together with the transmitted file name.
    /// Every reply this receiver owes is handed to the sink, and every
    /// protocol violation is returned as the error the session model assigns
    /// to it.
    #[verifier::loop_isolation(false)]
    #[verifier::rlimit(60)]
    pub fn recv_file(&mut self, dest: &mut DestBuffer) -> (r: Result<(usize, Vec<u8>), ZError>)
        requires
            old(dest).wf(),
        ensures
            ({
                let ss = spec_session(
                    old(self).incoming(),
                    (old(dest).spec_capacity() - old(dest)@.len()) as nat,
                );
                final(self).incoming() == ss.rest && final(self).sent() == old(self).sent()
                    + ss.sent && final(dest)@ == old(dest)@ + ss.written
                    && final(dest).spec_capacity() == old(dest).spec_capacity()
                    && final(dest).wf() && match ss.outcome {
                    Ok(name) => r matches Ok(p) && p.0 == ss.written.len() && p.1@ == name,
                    Err(e) => r == Err::<(usize, Vec<u8>), ZError>(e),
                }
            }),
    {
        let ghost s0 = self.rx.incoming();
        let ghost cap0 = (old(dest).spec_capacity() - old(dest)@.len()) as nat;
        let ghost sent0 = self.tx.sent();
        let ghost d0 = old(dest)@;
        let ghost ss = spec_session(s0, cap0);
        let start_len = dest.len();
        proof {
            assert(d0 + Seq::<u8>::empty() =~= d0);
            assert(sent0 + Seq::<u8>::empty() =~= sent0);
            assert(zeros4() =~= [0u8, 0u8, 0u8, 0u8]@);
        }

        // Expect ZRQINIT, reply ZRINIT.
        let h1 = match self.rx_header() {
            Ok(h) => h,
            Err(e) => {
                return Err(e);
            },
        };
        if h1.typ != ZRQINIT {
            return Err(ZError::FramingError { expected: ZRQINIT, actual: h1.typ });
        }
        self.tx_hex_header(ZRINIT, [0u8, 0u8, 0u8, 0u8]);
        let ghost sent1 = sent0 + spec_hex_header_bytes(ZRINIT, zeros4());

        // Expect ZFILE, read the file information subpacket, reply ZRPOS.
        let h2 = match self.rx_header() {
            Ok(h) => h,
            Err(e) => {
                return Err(e);
            },
        };
        if h2.typ != ZFILE {
            return Err(ZError::FramingError { expected: ZFILE, actual: h2.typ });
        }
        let mut tmp = DestBuffer::new(64);
        match self.rx_subpacket(&mut tmp) {
            Ok(_) => {},
            Err(e) => {
                return Err(e);
            },
        };
        proof {
            assert(Seq::<u8>::empty() + spec_read_subpacket(
                spec_read_header(spec_read_header(s0).1).1,
                64,
            ).2 =~= spec_read_subpacket(spec_read_header(spec_read_header(s0).1).1, 64).2);
        }
        let name = filename_of(tmp.as_bytes().as_slice());
        self.tx_hex_header(ZRPOS, [0u8, 0u8, 0u8, 0u8]);
        let ghost sent2 = sent1 + spec_hex_header_bytes(ZRPOS, zeros4());
        proof {
            assert(self.tx.sent() =~= sent0 + (spec_hex_header_bytes(ZRINIT, zeros4())
                + spec_hex_header_bytes(ZRPOS, zeros4())));
        }

        // Expect ZDATA, then run the data phase.
        let h3 = match self.rx_header() {
            Ok(h) => h,
            Err(e) => {
                return Err(e);
            },
        };
        if h3.typ != ZDATA {
            return Err(ZError::FramingError { expected: ZDATA, actual: h3.typ });
        }
        let ghost s4 = self.rx.incoming();
        let ghost sent_mid = self.tx.sent();
        proof {
            assert(Seq::<u8>::empty() + spec_data_phase(s4, cap0).2 =~= spec_data_phase(
                s4,
                cap0,
            ).2);
            assert(dest@.skip(d0.len() as int) =~= Seq::<u8>::empty());
        }
        let mut done = false;
        while !done
            invariant
                dest.wf(),
                dest.spec_capacity() == old(dest).spec_capacity(),
                dest@.len() >= d0.len(),
                dest@.take(d0.len() as int) == d0,
                self.tx.sent() == sent_mid,
                !done ==> ({
                    let w1 = dest@.skip(d0.len() as int);
                    let (fr, frest, fw) = spec_data_phase(
                        self.rx.incoming(),
                        (cap0 - w1.len()) as nat,
                    );
                    w1.len() <= cap0 && spec_data_phase(s4, cap0) == (fr, frest, w1 + fw)
                }),
                done ==> ({
                    let w1 = dest@.skip(d0.len() as int);
                    w1.len() <= cap0 && spec_data_phase(s4, cap0) == (
                        Ok::<(), ZError>(()),
                        self.rx.incoming(),
                        w1,
                    )
                }),
            decreases self.rx.incoming().len(),
        {
            let ghost prev = self.rx.incoming();
            let ghost w1 = dest@.skip(d0.len() as int);
            let ghost rem1 = (cap0 - w1.len()) as nat;
            let sp = match self.rx_subpacket(dest) {
                Ok(sp) => sp,
                Err(e) => {
                    proof {
                        let (rs, rrest, rw) = spec_read_subpacket(prev, rem1);
                        assert(dest@.take(d0.len() as int) =~= d0);
                        assert(dest@.skip(d0.len() as int) =~= w1 + rw);
                        assert(dest@ =~= d0 + (w1 + rw));
                    }
                    return Err(e);
                },
            };
            proof {
                lemma_read_subpacket_consumes(prev, rem1);
                let (rs, rrest, rw) = spec_read_subpacket(prev, rem1);
                assert(dest@.take(d0.len() as int) =~= d0);
                assert(dest@.skip(d0.len() as int) =~= w1 + rw);
            }
            if sp.typ == ZCRCE {
                done = true;
            } else if sp.typ == ZCRCG {
                proof {
                    let (rs, rrest, rw) = spec_read_subpacket(prev, rem1);
                    let w2 = dest@.skip(d0.len() as int);
                    let (fr2, frest2, fw2) = spec_data_phase(
                        self.rx.incoming(),
                        (cap0 - w2.len()) as nat,
                    );
                    assert(w1 + (rw + fw2) =~= w2 + fw2);
                }
            } else {
                proof {
                    let (rs, rrest, rw) = spec_read_subpacket(prev, rem1);
                    assert(dest@ =~= d0 + (w1 + rw));
                }
                return Err(ZError::UnsupportedSymbol { byte: sp.typ });
            }
        }
        let ghost wd = dest@.skip(d0.len() as int);
        proof {
            assert(dest@ =~= d0 + wd);
        }

        // Expect ZEOF, reply ZRINIT.
        let h4 = match self.rx_header() {
            Ok(h) => h,
            Err(e) => {
                return Err(e);
            },
        };
        if h4.typ != ZEOF {
            return Err(ZError::FramingError { expected: ZEOF, actual: h4.typ });
        }
        self.tx_hex_header(ZRINIT, [0u8, 0u8, 0u8, 0u8]);
        proof {
            assert(self.tx.sent() =~= sent0 + ((spec_hex_header_bytes(ZRINIT, zeros4())
                + spec_hex_header_bytes(ZRPOS, zeros4())) + spec_hex_header_bytes(
                ZRINIT,
                zeros4(),
            )));
        }

        // Expect ZFIN, reply ZFIN.
        let h5 = match self.rx_header() {
            Ok(h) => h,
            Err(e) => {
                return Err(e);
            },
        };
        if h5.typ != ZFIN {
            return Err(ZError::FramingError { expected: ZFIN, actual: h5.typ });
        }
        self.tx_hex_header(ZFIN, [0u8, 0u8, 0u8, 0u8]);
        proof {
            assert(self.tx.sent() =~= sent0 + (((spec_hex_header_bytes(ZRINIT, zeros4())
                + spec_hex_header_bytes(ZRPOS, zeros4())) + spec_hex_header_bytes(
                ZRINIT,
                zeros4(),
            )) + spec_hex_header_bytes(ZFIN, zeros4())));
        }

        let total = dest.len() - start_len;
        Ok((total, name))
    }
}

/// The sender's bytes for a whole data phase: every subpacket but the last is
/// terminated "more follow", the last one "end of data".
pub open spec fn spec_chunks_bytes(chunks: Seq<Seq<u8>>) -> Seq<u8>
    decreases chunks.len(),
{
    if chunks.len() == 0 {
        Seq::empty()
    } else if chunks.len() == 1 {
        spec_subpacket_bytes(chunks[0], ZCRCE)
    } else {
        spec_subpacket_bytes(chunks[0], ZCRCG) + spec_chunks_bytes(chunks.skip(1))
    }
}

/// A leading byte that is not the frame-start marker is discarded by the
/// header scan, so header decoding ignores it.
pub proof fn lemma_read_header_skips_leading(b: u8, s: Seq<u8>)
    requires
        b != 0x2a,
    ensures
        spec_read_header(seq![b] + s) == spec_read_header(s),
{
    assert((seq![b] + s)[0] == b);
    assert((seq![b] + s).skip(1) =~= s);
}

/// A leading flow-control byte is discarded by the symbol codec, so subpacket
/// decoding ignores it.
pub proof fn lemma_subpacket_skips_flow(b: u8, s: Seq<u8>, cap: nat)
    requires
        is_flow_byte(b),
    ensures
        spec_read_subpacket(seq![b] + s, cap) == spec_read_subpacket(s, cap),
{
    lemma_flow_byte_dropped(b, s);
    assert(spec_read_subpacket_data(seq![b] + s, cap) == spec_read_subpacket_data(s, cap));
}

/// A leading flow-control byte is discarded ahead of the data phase as well.
pub proof fn lemma_data_phase_skips_flow(b: u8, s: Seq<u8>, cap: nat)
    requires
        is_flow_byte(b),
    ensures
        spec_data_phase(seq![b] + s, cap) == spec_data_phase(s, cap),
{
    lemma_subpacket_skips_flow(b, s, cap);
}

/// Data phase round trip: a run of encoded subpackets, all but the last
/// announcing more, decodes to the concatenation of their payloads, provided
/// the destination has room for all of them.
pub proof fn lemma_data_phase_round_trip(chunks: Seq<Seq<u8>>, rest: Seq<u8>, cap: nat)
    requires
        chunks.len() >= 1,
        chunks.flatten().len() <= cap,
    ensures
        spec_data_phase(spec_chunks_bytes(chunks) + rest, cap) == (
            Ok::<(), ZError>(()),
            rest,
            chunks.flatten(),
        ),
    decreases chunks.len(),
{
    let c0 = chunks[0];
    assert(chunks.first() == c0);
    assert(chunks.flatten() == c0 + chunks.drop_first().flatten());
    assert(chunks.drop_first() =~= chunks.skip(1));
    if chunks.len() == 1 {
        assert(chunks.skip(1).flatten() == Seq::<Seq<u8>>::empty().flatten());
        assert(c0 + Seq::<u8>::empty() =~= c0);
        lemma_subpacket_round_trip(c0, ZCRCE, rest, cap);
        assert(chunks.flatten() =~= c0);
    } else {
        let tail_bytes = spec_chunks_bytes(chunks.skip(1)) + rest;
        assert(spec_chunks_bytes(chunks) + rest =~= spec_subpacket_bytes(c0, ZCRCG)
            + tail_bytes);
        lemma_subpacket_round_trip(c0, ZCRCG, tail_bytes, cap);
        lemma_data_phase_round_trip(chunks.skip(1), rest, (cap - c0.len()) as nat);
        assert(c0 + chunks.skip(1).flatten() =~= chunks.flatten());
    }
}

/// Session round trip: the sender-side encoding of a complete well-formed
/// session — ZRQINIT, ZFILE with its file-information subpacket, ZDATA with
/// any run of data subpackets, ZEOF and ZFIN, all headers in hexadecimal
/// form — decodes to exactly the concatenated payload and the transmitted
/// file name, and the session replies with exactly ZRINIT, ZRPOS, ZRINIT and
/// ZFIN, provided the destination has room for the payload and the file
/// information fits its staging buffer.
pub proof fn lemma_session_round_trip(name_data: Seq<u8>, chunks: Seq<Seq<u8>>, cap: nat)
    requires
        name_data.len() <= 64,
        chunks.len() >= 1,
        chunks.flatten().len() <= cap,
    ensures
        ({
            let stream = spec_hex_header_bytes(ZRQINIT, zeros4()) + (spec_hex_header_bytes(
                ZFILE,
                zeros4(),
            ) + (spec_subpacket_bytes(name_data, ZCRCW) + (spec_hex_header_bytes(ZDATA, zeros4())
                + (spec_chunks_bytes(chunks) + (spec_hex_header_bytes(ZEOF, zeros4())
                + spec_hex_header_bytes(ZFIN, zeros4()))))));
            let ss = spec_session(stream, cap);
            ss.outcome == Ok::<Seq<u8>, ZError>(spec_filename(name_data)) && ss.written
                == chunks.flatten() && ss.sent == spec_hex_header_bytes(ZRINIT, zeros4())
                + spec_hex_header_bytes(ZRPOS, zeros4()) + spec_hex_header_bytes(ZRINIT, zeros4())
                + spec_hex_header_bytes(ZFIN, zeros4()) && ss.rest == seq![XON]
        }),
{
    let z = zeros4();
    let e5 = spec_hex_header_bytes(ZFIN, z);
    let e4 = spec_hex_header_bytes(ZEOF, z);
    let ec = spec_chunks_bytes(chunks);
    let e3 = spec_hex_header_bytes(ZDATA, z);
    let en = spec_subpacket_bytes(name_data, ZCRCW);
    let e2 = spec_hex_header_bytes(ZFILE, z);
    let r4 = ec + (e4 + e5);
    let r3 = e3 + r4;
    let r2 = en + r3;
    let r1 = e2 + r2;

    lemma_hex_header_round_trip(ZRQINIT, z, r1);
    lemma_read_header_skips_leading(XON, r1);
    lemma_hex_header_round_trip(ZFILE, z, r2);
    lemma_subpacket_skips_flow(XON, r2, 64);
    lemma_subpacket_round_trip(name_data, ZCRCW, r3, 64);
    lemma_hex_header_round_trip(ZDATA, z, r4);
    lemma_data_phase_skips_flow(XON, r4, cap);
    lemma_data_phase_round_trip(chunks, e4 + e5, cap);
    lemma_hex_header_round_trip(ZEOF, z, e5);
    lemma_read_header_skips_leading(XON, e5);
    assert(e5 + Seq::<u8>::empty() =~= e5);
    lemma_hex_header_round_trip(ZFIN, z, Seq::empty());
    assert(seq![XON] + Seq::<u8>::empty() =~= seq![XON]);
}

} // verus!
