use zmodem_rx::buffer::DestBuffer;
use zmodem_rx::mmio::Reg32;
use zmodem_rx::wire::Sym;

#[test]
fn reg32_zero_starts_clear() {
    let r = Reg32::zero(0x0250_0000);
    assert_eq!(r.addr, 0x0250_0000);
    assert_eq!(r.value(), 0);
}

#[test]
fn reg32_set_field_places_bits() {
    let r = Reg32::zero(0x100).set_field::<4, 4>(0b0110).set_field::<0, 4>(0b0110);
    assert_eq!(r.value(), 0x66);
    assert_eq!(r.field::<4, 4>(), 0b0110);
    assert_eq!(r.field::<0, 4>(), 0b0110);
}

#[test]
fn reg32_set_field_overwrites_only_its_field() {
    let r = Reg32::with_value(0x100, 0xffff_ffff).set_field::<8, 8>(0x13);
    assert_eq!(r.value(), 0xffff_13ff);
    assert_eq!(r.field::<8, 8>(), 0x13);
    assert_eq!(r.field::<0, 8>(), 0xff);
    assert_eq!(r.field::<16, 16>(), 0xffff);
}

#[test]
fn reg32_bit_test_and_masks() {
    let r = Reg32::with_value(0, 0b1010).and(0b1110).or(0b0001);
    assert_eq!(r.value(), 0b1011);
    assert!(r.is_bit_set::<0>());
    assert!(r.is_bit_set::<1>());
    assert!(!r.is_bit_set::<2>());
    assert!(r.is_bit_set::<3>());
}

#[test]
fn dest_buffer_tracks_cursor_and_capacity() {
    let mut d = DestBuffer::new(3);
    assert_eq!(d.capacity(), 3);
    assert_eq!(d.len(), 0);
    assert_eq!(d.remaining(), 3);
    d.push_byte(7);
    d.push_byte(8);
    assert_eq!(d.len(), 2);
    assert_eq!(d.remaining(), 1);
    assert_eq!(d.as_bytes().as_slice(), &[7, 8]);
}

#[test]
fn sym_exposes_its_byte() {
    assert_eq!(Sym::Chr(0x41).as_u8(), 0x41);
    assert_eq!(Sym::Esc(0x68).as_u8(), 0x68);
}
