use bus_sequencer::i2c::{Address, AddressMode, Direction};

#[test]
fn seven_bit_write_address_byte() {
    let address = Address::seven_bit(0x15).unwrap();
    assert_eq!(address.wire_bytes(Direction::Write), vec![0x2A]);
}

#[test]
fn seven_bit_read_address_byte() {
    let address = Address::seven_bit(0x15).unwrap();
    assert_eq!(address.wire_bytes(Direction::Read), vec![0x2B]);
}

#[test]
fn ten_bit_read_address_bytes() {
    let address = Address::ten_bit(0x158).unwrap();
    assert_eq!(address.wire_bytes(Direction::Read), vec![0xF3, 0x58]);
}

#[test]
fn ten_bit_write_address_bytes() {
    let address = Address::ten_bit(0x3FF).unwrap();
    assert_eq!(address.wire_bytes(Direction::Write), vec![0xF6, 0xFF]);
}

#[test]
fn address_must_fit_its_mode() {
    assert!(Address::seven_bit(127).is_some());
    assert!(Address::seven_bit(128).is_none());
    assert!(Address::ten_bit(1023).is_some());
    assert!(Address::ten_bit(1024).is_none());
    assert!(Address::new(AddressMode::SevenBit, 0x158).is_none());
    assert!(Address::new(AddressMode::TenBit, 0x158).is_some());
}

#[test]
fn address_reports_mode_and_value() {
    let address = Address::ten_bit(0x158).unwrap();
    assert_eq!(address.mode(), AddressMode::TenBit);
    assert_eq!(address.value(), 0x158);
    assert_eq!(address.mode().bits(), 10);
    assert_eq!(AddressMode::SevenBit.bits(), 7);
    assert_eq!(AddressMode::SevenBit.bound(), 128);
    assert_eq!(AddressMode::TenBit.bound(), 1024);
}

#[test]
fn direction_bit() {
    assert_eq!(Direction::Read.bit(), 1);
    assert_eq!(Direction::Write.bit(), 0);
}
