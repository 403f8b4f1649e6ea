use zmodem_rx::buffer::DestBuffer;
use zmodem_rx::error::{CrcSite, ZError};
use zmodem_rx::transport::{VecSink, VecSource};
use zmodem_rx::wire::{append_escaped, dec_nibble, enc_nibble, encode_subpacket, Sym};
use zmodem_rx::wire::{ZCRCE, ZCRCG, ZCRCQ, ZCRCW, ZDLE, XOFF, XON};
use zmodem_rx::zmodem::ZModem;

fn engine(stream: Vec<u8>) -> ZModem<VecSource, VecSink> {
    ZModem::new(VecSource::new(stream), VecSink::new())
}

#[test]
fn escape_marks_reserved_bytes() {
    let mut out = Vec::new();
    append_escaped(&mut out, XON);
    assert_eq!(out, vec![ZDLE, 0x51]);
    out.clear();
    append_escaped(&mut out, XOFF);
    assert_eq!(out, vec![ZDLE, 0x53]);
    out.clear();
    append_escaped(&mut out, 0x91);
    assert_eq!(out, vec![ZDLE, 0xd1]);
    out.clear();
    append_escaped(&mut out, ZDLE);
    assert_eq!(out, vec![ZDLE, 0x58]);
    out.clear();
    append_escaped(&mut out, 0x41);
    assert_eq!(out, vec![0x41]);
}

#[test]
fn escape_round_trip_reproduces_every_byte_class() {
    // Includes the flow-control codes, their high-bit forms, the escape
    // marker, the terminator code values and ordinary bytes.
    for &b in &[0x00u8, 0x11, 0x13, 0x18, 0x41, 0x68, 0x69, 0x6a, 0x6b, 0x7f, 0x91, 0x93, 0xff] {
        let mut stream = Vec::new();
        append_escaped(&mut stream, b);
        let mut zm = engine(stream);
        assert_eq!(zm.rx_bin(), Ok(Sym::Chr(b)), "byte 0x{:02x}", b);
    }
}

#[test]
fn raw_flow_control_bytes_are_dropped() {
    let mut zm = engine(vec![XON, XOFF, 0x91, 0x93, 0x42]);
    assert_eq!(zm.rx_bin(), Ok(Sym::Chr(0x42)));
    let mut zm = engine(vec![XON, XOFF, 0x42]);
    assert_eq!(zm.rx_ascii(), Ok(0x42));
}

#[test]
fn escaped_terminators_are_control_symbols() {
    for &t in &[ZCRCE, ZCRCG, ZCRCQ, ZCRCW] {
        let mut zm = engine(vec![ZDLE, t]);
        assert_eq!(zm.rx_bin(), Ok(Sym::Esc(t)));
    }
    // Unescaped terminator values are plain literals.
    let mut zm = engine(vec![ZCRCE]);
    assert_eq!(zm.rx_bin(), Ok(Sym::Chr(ZCRCE)));
}

#[test]
fn exhausted_source_is_reported() {
    let mut zm = engine(vec![]);
    assert_eq!(zm.rx_bin(), Err(ZError::SourceExhausted));
    let mut zm = engine(vec![XON]);
    assert_eq!(zm.rx_ascii(), Err(ZError::SourceExhausted));
}

#[test]
fn hex_nibbles_encode_and_decode() {
    for v in 0u8..16 {
        let d = enc_nibble(v);
        assert_eq!(dec_nibble(d), Some(v));
    }
    assert_eq!(enc_nibble(0xa), b'a');
    assert_eq!(enc_nibble(0x0), b'0');
    assert_eq!(dec_nibble(b'z'), None);
    assert_eq!(dec_nibble(b'A'), None);
}

#[test]
fn subpacket_encoding_is_bit_exact() {
    // Payload [1, 2, 3] with the "more follow" terminator: CRC over
    // 01 02 03 69 finalizes to 0xb008, nothing needs escaping.
    assert_eq!(encode_subpacket(&[1, 2, 3], ZCRCG), vec![1, 2, 3, ZDLE, ZCRCG, 0xb0, 0x08]);
    assert_eq!(encode_subpacket(&[4, 5], ZCRCE), vec![4, 5, ZDLE, ZCRCE, 0xce, 0x9b]);
}

#[test]
fn subpacket_decodes_payload_and_terminator() {
    let payload = [0x10u8, 0x18, 0x20, 0x11, 0x93];
    let stream = encode_subpacket(&payload, ZCRCG);
    let mut zm = engine(stream);
    let mut dest = DestBuffer::new(16);
    let sp = zm.rx_subpacket(&mut dest).unwrap();
    assert_eq!(sp.typ, ZCRCG);
    assert_eq!(sp.len, payload.len());
    assert_eq!(dest.as_bytes().as_slice(), &payload);
}

#[test]
fn subpacket_exactly_filling_the_buffer_is_accepted() {
    let payload = [9u8, 8, 7, 6];
    let stream = encode_subpacket(&payload, ZCRCE);
    let mut zm = engine(stream);
    let mut dest = DestBuffer::new(4);
    let sp = zm.rx_subpacket(&mut dest).unwrap();
    assert_eq!(sp.typ, ZCRCE);
    assert_eq!(dest.as_bytes().as_slice(), &payload);
}

#[test]
fn subpacket_overrunning_the_buffer_is_rejected() {
    let stream = encode_subpacket(&[1, 2, 3, 4, 5], ZCRCE);
    let mut zm = engine(stream);
    let mut dest = DestBuffer::new(4);
    assert_eq!(zm.rx_subpacket(&mut dest), Err(ZError::BufferOverrun));
    // The four bytes that fit were written before the overrun was detected.
    assert_eq!(dest.as_bytes().as_slice(), &[1, 2, 3, 4]);
}

#[test]
fn subpacket_with_corrupted_crc_is_rejected() {
    // Corrupt either of the two trailing CRC bytes; for this payload neither
    // is escaped on the wire, so they are the last two stream bytes.
    for back in 1..3usize {
        let mut stream = encode_subpacket(&[1, 2, 3], ZCRCG);
        let at: usize = stream.len() - back;
        stream[at] ^= 0x01;
        let mut zm = engine(stream);
        let mut dest = DestBuffer::new(16);
        assert_eq!(
            zm.rx_subpacket(&mut dest),
            Err(ZError::CrcMismatch { site: CrcSite::Subpacket { terminator: ZCRCG } })
        );
    }
}
