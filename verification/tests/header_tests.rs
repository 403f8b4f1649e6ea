use zmodem_rx::crc::Crc16;
use zmodem_rx::error::{CrcSite, ZError};
use zmodem_rx::transport::{VecSink, VecSource};
use zmodem_rx::wire::{append_escaped, ZBIN, ZDLE, ZRINIT, XOFF, XON};
use zmodem_rx::zmodem::ZModem;

fn engine(stream: Vec<u8>) -> ZModem<VecSource, VecSink> {
    ZModem::new(VecSource::new(stream), VecSink::new())
}

fn hex_header_bytes(typ: u8, data: [u8; 4]) -> Vec<u8> {
    let mut zm = engine(vec![]);
    zm.tx_hex_header(typ, data);
    zm.tx.data
}

#[test]
fn hex_header_encoding_is_bit_exact() {
    // The ZRINIT reply with all-zero data, as it appears on the wire.
    let expected: Vec<u8> = vec![
        b'*', b'*', ZDLE, b'B', b'0', b'1', b'0', b'0', b'0', b'0', b'0', b'0', b'0', b'0', b'a',
        b'a', b'5', b'1', 0x0d, 0x0a, XON,
    ];
    assert_eq!(hex_header_bytes(ZRINIT, [0, 0, 0, 0]), expected);
}

#[test]
fn hex_header_round_trip() {
    let stream = hex_header_bytes(0x0b, [0xde, 0xad, 0xbe, 0xef]);
    let mut zm = engine(stream);
    let h = zm.rx_header().unwrap();
    assert_eq!(h.typ, 0x0b);
    assert_eq!(h.data, [0xde, 0xad, 0xbe, 0xef]);
}

#[test]
fn hex_header_with_flow_control_noise_still_decodes() {
    let clean = hex_header_bytes(4, [1, 2, 3, 4]);
    let mut noisy = vec![XON, 0x55, XOFF];
    for (i, b) in clean.iter().enumerate() {
        noisy.push(*b);
        if i == 5 {
            noisy.push(XON);
        }
    }
    let mut zm = engine(noisy);
    let h = zm.rx_header().unwrap();
    assert_eq!(h.typ, 4);
    assert_eq!(h.data, [1, 2, 3, 4]);
}

#[test]
fn bin16_header_decodes() {
    let body = [0x0au8, 0x01, 0x02, 0x03, 0x04];
    let mut crc = Crc16::default();
    let mut stream = vec![b'*', ZDLE, ZBIN];
    for &b in &body {
        append_escaped(&mut stream, b);
        crc.update(b);
    }
    let f = crc.finish();
    append_escaped(&mut stream, (f >> 8) as u8);
    append_escaped(&mut stream, (f & 0xff) as u8);
    let mut zm = engine(stream);
    let h = zm.rx_header().unwrap();
    assert_eq!(h.typ, 0x0a);
    assert_eq!(h.data, [0x01, 0x02, 0x03, 0x04]);
}

#[test]
fn bin16_header_with_bad_crc_is_rejected() {
    let body = [0x0au8, 0x01, 0x02, 0x03, 0x04];
    let mut crc = Crc16::default();
    let mut stream = vec![b'*', ZDLE, ZBIN];
    for &b in &body {
        append_escaped(&mut stream, b);
        crc.update(b);
    }
    let f = crc.finish() ^ 0x0100;
    append_escaped(&mut stream, (f >> 8) as u8);
    append_escaped(&mut stream, (f & 0xff) as u8);
    let mut zm = engine(stream);
    assert_eq!(
        zm.rx_header(),
        Err(
            ZError::CrcMismatch {
                site: CrcSite::BinHeader { typ: 0x0a, d0: 0x01, d1: 0x02, d2: 0x03, d3: 0x04 },
            },
        )
    );
}

#[test]
fn hex_header_with_bad_crc_is_rejected() {
    let mut stream = hex_header_bytes(1, [0, 0, 0, 0]);
    // Corrupt one hex digit of the type byte: '1' becomes '2'.
    stream[5] = b'2';
    let mut zm = engine(stream);
    assert_eq!(
        zm.rx_header(),
        Err(
            ZError::CrcMismatch {
                site: CrcSite::HexHeader { typ: 0x02, d0: 0, d1: 0, d2: 0, d3: 0 },
            },
        )
    );
}

#[test]
fn header_with_invalid_hex_digit_is_rejected() {
    let mut stream = hex_header_bytes(1, [0, 0, 0, 0]);
    stream[4] = b'z';
    let mut zm = engine(stream);
    assert_eq!(zm.rx_header(), Err(ZError::UnsupportedSymbol { byte: b'z' }));
}

#[test]
fn header_with_unknown_selector_is_rejected() {
    let stream = vec![b'*', ZDLE, b'C'];
    let mut zm = engine(stream);
    assert_eq!(zm.rx_header(), Err(ZError::UnsupportedSymbol { byte: b'C' }));
}

#[test]
fn header_scan_skips_garbage_before_frame_start() {
    let mut stream = vec![0x00, 0x55, 0xaa, 0x2a, 0x99, 0x77];
    stream.extend(hex_header_bytes(8, [9, 9, 9, 9]));
    // The scan consumes bytes until `*`, then until the escape marker, so the
    // garbage and the extra bytes before the real frame start are discarded.
    let mut zm = engine(stream);
    let h = zm.rx_header().unwrap();
    assert_eq!(h.typ, 8);
    assert_eq!(h.data, [9, 9, 9, 9]);
}

#[test]
fn truncated_header_reports_exhaustion() {
    let mut stream = hex_header_bytes(1, [0, 0, 0, 0]);
    stream.truncate(10);
    let mut zm = engine(stream);
    assert_eq!(zm.rx_header(), Err(ZError::SourceExhausted));
}
