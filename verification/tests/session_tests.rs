use zmodem_rx::buffer::DestBuffer;
use zmodem_rx::error::ZError;
use zmodem_rx::transport::{VecSink, VecSource};
use zmodem_rx::wire::{encode_subpacket, ZCRCE, ZCRCG, ZCRCQ, ZCRCW};
use zmodem_rx::wire::{ZACK, ZDATA, ZEOF, ZFILE, ZFIN, ZRINIT, ZRPOS, ZRQINIT};
use zmodem_rx::zmodem::ZModem;

fn engine(stream: Vec<u8>) -> ZModem<VecSource, VecSink> {
    ZModem::new(VecSource::new(stream), VecSink::new())
}

fn hex_header_bytes(typ: u8) -> Vec<u8> {
    let mut zm = engine(vec![]);
    zm.tx_hex_header(typ, [0, 0, 0, 0]);
    zm.tx.data
}

#[test]
fn session_receives_a_two_subpacket_file() {
    // The sender's side of the fixed handshake: ZRQINIT, then ZFILE with the
    // file information subpacket, then ZDATA with two data subpackets, then
    // ZEOF and ZFIN.
    let mut stream = Vec::new();
    stream.extend(hex_header_bytes(ZRQINIT));
    stream.extend(hex_header_bytes(ZFILE));
    stream.extend(encode_subpacket(b"IMAGE.BIN\0", ZCRCW));
    stream.extend(hex_header_bytes(ZDATA));
    stream.extend(encode_subpacket(&[0x01, 0x02, 0x03], ZCRCG));
    stream.extend(encode_subpacket(&[0x04, 0x05], ZCRCE));
    stream.extend(hex_header_bytes(ZEOF));
    stream.extend(hex_header_bytes(ZFIN));

    let mut zm = engine(stream);
    let mut dest = DestBuffer::new(1024);
    let (total, name) = zm.recv_file(&mut dest).unwrap();

    assert_eq!(total, 5);
    assert_eq!(name, b"IMAGE.BIN");
    assert_eq!(dest.as_bytes().as_slice(), &[0x01, 0x02, 0x03, 0x04, 0x05]);

    // The receiver's replies, in order: ZRINIT, ZRPOS, ZRINIT, ZFIN.
    let mut replies = Vec::new();
    replies.extend(hex_header_bytes(ZRINIT));
    replies.extend(hex_header_bytes(ZRPOS));
    replies.extend(hex_header_bytes(ZRINIT));
    replies.extend(hex_header_bytes(ZFIN));
    assert_eq!(zm.tx.data, replies);
}

#[test]
fn session_rejects_overrunning_subpacket() {
    // A destination of capacity 4 receiving five literal bytes must be
    // rejected as an overrun, not silently truncated.
    let mut stream = Vec::new();
    stream.extend(hex_header_bytes(ZRQINIT));
    stream.extend(hex_header_bytes(ZFILE));
    stream.extend(encode_subpacket(b"A\0", ZCRCW));
    stream.extend(hex_header_bytes(ZDATA));
    stream.extend(encode_subpacket(&[1, 2, 3, 4, 5], ZCRCE));

    let mut zm = engine(stream);
    let mut dest = DestBuffer::new(4);
    assert_eq!(zm.recv_file(&mut dest), Err(ZError::BufferOverrun));
}

#[test]
fn session_reports_unexpected_header_type() {
    // A ZACK header arriving where ZFILE is expected is a framing error
    // naming both the expected and the actual type.
    let mut stream = Vec::new();
    stream.extend(hex_header_bytes(ZRQINIT));
    stream.extend(hex_header_bytes(ZACK));

    let mut zm = engine(stream);
    let mut dest = DestBuffer::new(64);
    assert_eq!(
        zm.recv_file(&mut dest),
        Err(ZError::FramingError { expected: ZFILE, actual: ZACK })
    );
    // The first reply had already been owed and sent.
    assert_eq!(zm.tx.data, hex_header_bytes(ZRINIT));
}

#[test]
fn session_rejects_reserved_data_terminator() {
    let mut stream = Vec::new();
    stream.extend(hex_header_bytes(ZRQINIT));
    stream.extend(hex_header_bytes(ZFILE));
    stream.extend(encode_subpacket(b"A\0", ZCRCW));
    stream.extend(hex_header_bytes(ZDATA));
    stream.extend(encode_subpacket(&[1, 2], ZCRCQ));

    let mut zm = engine(stream);
    let mut dest = DestBuffer::new(64);
    assert_eq!(zm.recv_file(&mut dest), Err(ZError::UnsupportedSymbol { byte: ZCRCQ }));
    // The subpacket's bytes had already been written when its terminator was
    // examined.
    assert_eq!(dest.as_bytes().as_slice(), &[1, 2]);
}

#[test]
fn session_requires_zrqinit_first() {
    let mut stream = Vec::new();
    stream.extend(hex_header_bytes(ZDATA));
    let mut zm = engine(stream);
    let mut dest = DestBuffer::new(64);
    assert_eq!(
        zm.recv_file(&mut dest),
        Err(ZError::FramingError { expected: ZRQINIT, actual: ZDATA })
    );
    assert_eq!(zm.tx.data, Vec::<u8>::new());
}

#[test]
fn session_filename_without_terminator_is_empty() {
    // The file information subpacket carries no zero byte, so the extracted
    // name is defined to be empty.
    let mut stream = Vec::new();
    stream.extend(hex_header_bytes(ZRQINIT));
    stream.extend(hex_header_bytes(ZFILE));
    stream.extend(encode_subpacket(b"NONUL", ZCRCW));
    stream.extend(hex_header_bytes(ZDATA));
    stream.extend(encode_subpacket(&[7], ZCRCE));
    stream.extend(hex_header_bytes(ZEOF));
    stream.extend(hex_header_bytes(ZFIN));

    let mut zm = engine(stream);
    let mut dest = DestBuffer::new(64);
    let (total, name) = zm.recv_file(&mut dest).unwrap();
    assert_eq!(total, 1);
    assert_eq!(name, Vec::<u8>::new());
}

#[test]
fn session_filename_stops_at_first_zero() {
    let mut stream = Vec::new();
    stream.extend(hex_header_bytes(ZRQINIT));
    stream.extend(hex_header_bytes(ZFILE));
    stream.extend(encode_subpacket(b"BOOT\0 12345 extra\0", ZCRCW));
    stream.extend(hex_header_bytes(ZDATA));
    stream.extend(encode_subpacket(&[7], ZCRCE));
    stream.extend(hex_header_bytes(ZEOF));
    stream.extend(hex_header_bytes(ZFIN));

    let mut zm = engine(stream);
    let mut dest = DestBuffer::new(64);
    let (_, name) = zm.recv_file(&mut dest).unwrap();
    assert_eq!(name, b"BOOT");
}

#[test]
fn session_accepts_an_empty_file() {
    // A single end terminator with no literal bytes: zero bytes received.
    let mut stream = Vec::new();
    stream.extend(hex_header_bytes(ZRQINIT));
    stream.extend(hex_header_bytes(ZFILE));
    stream.extend(encode_subpacket(b"E\0", ZCRCW));
    stream.extend(hex_header_bytes(ZDATA));
    stream.extend(encode_subpacket(&[], ZCRCE));
    stream.extend(hex_header_bytes(ZEOF));
    stream.extend(hex_header_bytes(ZFIN));

    let mut zm = engine(stream);
    let mut dest = DestBuffer::new(64);
    let (total, _) = zm.recv_file(&mut dest).unwrap();
    assert_eq!(total, 0);
    assert_eq!(dest.as_bytes().len(), 0);
}

#[test]
fn session_stops_on_truncated_stream() {
    let mut stream = Vec::new();
    stream.extend(hex_header_bytes(ZRQINIT));
    let mut zm = engine(stream);
    let mut dest = DestBuffer::new(64);
    assert_eq!(zm.recv_file(&mut dest), Err(ZError::SourceExhausted));
}
