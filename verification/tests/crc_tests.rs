use zmodem_rx::crc::Crc16;

fn crc_of(data: &[u8]) -> u16 {
    let mut crc = Crc16::default();
    for &b in data {
        crc.update(b);
    }
    crc.finish()
}

#[test]
fn crc_classic_check_value() {
    // The classic CRC-CCITT (XMODEM) check value.
    assert_eq!(crc_of(b"123456789"), 0x31c3);
}

#[test]
fn crc_of_empty_is_zero() {
    assert_eq!(crc_of(b""), 0);
}

#[test]
fn crc_single_byte() {
    // One byte 0x01 shifted through the register: table row 1 is the
    // polynomial itself, so the finalized value is known.
    let mut crc = Crc16::default();
    crc.update(0x01);
    assert_eq!(crc.finish(), 0x1021);
}

#[test]
fn crc_round_trip_yields_zero() {
    let data = [0x01u8, 0x02, 0x03, 0xfe, 0x00, 0x42];
    let f = crc_of(&data);
    let mut with_tail = data.to_vec();
    with_tail.push((f >> 8) as u8);
    with_tail.push(f as u8);
    assert_eq!(crc_of(&with_tail), 0);
}

#[test]
fn crc_detects_single_bit_corruption() {
    let data = [0x01u8, 0x02, 0x03, 0xfe, 0x00, 0x42];
    let f = crc_of(&data);
    let mut with_tail = data.to_vec();
    with_tail.push((f >> 8) as u8);
    with_tail.push(f as u8);
    for i in 0..with_tail.len() {
        for bit in 0..8 {
            let mut corrupt = with_tail.clone();
            corrupt[i] ^= 1u8 << bit;
            assert_ne!(crc_of(&corrupt), 0, "corruption at byte {} bit {}", i, bit);
        }
    }
}

#[test]
fn crc_matches_reference_table_rows() {
    // Finalizing a single byte shifts it through the register twice, which
    // lands exactly on the classic 256-entry table's row for that byte.
    assert_eq!(crc_of(&[0x01]), 0x1021);
    assert_eq!(crc_of(&[0x10]), 0x1231);
    assert_eq!(crc_of(&[0xff]), 0x1ef0);
    assert_eq!(crc_of(&[0xaa, 0x55]), 0xf8e5);
}
