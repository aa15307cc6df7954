use bootloader::dap::{DiskAddressPacket, MAX_SECTORS_PER_READ, PACKET_SIZE};
use bootloader::firmware::{check_lba_extension_support, read_result, DiskError};
use bootloader::loader::{packet_at, sectors_to_read, LBA_SECTOR_SIZE};

#[test]
fn new_packet_reads_back_its_fields() {
    let packet = DiskAddressPacket::new(127, 0x000F, 0x07E0, 0x0000_1234_5678_9ABC);
    assert_eq!(packet.sector_count(), 127);
    assert_eq!(packet.offset(), 0x000F);
    assert_eq!(packet.segment(), 0x07E0);
    assert_eq!(packet.lba_start(), 0x0000_1234_5678_9ABC);
    assert_eq!(packet.packet_size(), 16);
    assert_eq!(packet.always_zero(), 0);
}

#[test]
fn new_packet_keeps_offset_and_segment_apart() {
    let packet = DiskAddressPacket::new(1, 2, 3, 4);
    assert_eq!(packet.offset(), 2);
    assert_eq!(packet.segment(), 3);
}

#[test]
fn new_packet_takes_extreme_values() {
    let packet = DiskAddressPacket::new(u16::MAX, u16::MAX, u16::MAX, u64::MAX);
    assert_eq!(packet.sector_count(), u16::MAX);
    assert_eq!(packet.offset(), u16::MAX);
    assert_eq!(packet.segment(), u16::MAX);
    assert_eq!(packet.lba_start(), u64::MAX);
    assert_eq!(packet.packet_size(), PACKET_SIZE);
    assert_eq!(packet.always_zero(), 0);
    let zero = DiskAddressPacket::new(0, 0, 0, 0);
    assert_eq!(zero.packet_size(), 16);
    assert_eq!(zero.always_zero(), 0);
}

#[test]
fn to_bytes_is_the_wire_format() {
    let packet = DiskAddressPacket::new(0x0114, 0x0A0B, 0x07E0, 0x0102_0304_0506_0708);
    assert_eq!(
        packet.to_bytes(),
        [
            0x10, 0x00, 0x14, 0x01, 0x0B, 0x0A, 0xE0, 0x07, 0x08, 0x07, 0x06, 0x05, 0x04, 0x03,
            0x02, 0x01
        ]
    );
}

#[test]
fn to_bytes_of_zero_packet() {
    let packet = DiskAddressPacket::new(0, 0, 0, 0);
    assert_eq!(packet.to_bytes(), [0x10, 0, 0, 0, 0, 0, 0, 0, 0, 0, 0, 0, 0, 0, 0, 0]);
}

#[test]
fn to_bytes_of_largest_packet() {
    let packet = DiskAddressPacket::new(u16::MAX, u16::MAX, u16::MAX, u64::MAX);
    let mut expected = [0xFFu8; 16];
    expected[0] = 0x10;
    expected[1] = 0;
    assert_eq!(packet.to_bytes(), expected);
}

#[test]
fn packets_compare_by_fields() {
    assert_eq!(DiskAddressPacket::new(1, 2, 3, 4), DiskAddressPacket::new(1, 2, 3, 4));
    assert_ne!(DiskAddressPacket::new(1, 2, 3, 4), DiskAddressPacket::new(1, 3, 2, 4));
}

#[test]
fn lba_extension_present_iff_carry_clear() {
    assert!(check_lba_extension_support(false));
    assert!(!check_lba_extension_support(true));
}

#[test]
fn read_fails_iff_carry_set() {
    assert_eq!(read_result(false, b'D'), Ok(()));
    assert_eq!(read_result(true, b'D'), Err(DiskError { code: b'D' }));
    assert_eq!(read_result(true, 0x81), Err(DiskError { code: 0x81 }));
}

#[test]
fn sectors_to_read_is_capped() {
    assert_eq!(MAX_SECTORS_PER_READ, 127);
    assert_eq!(sectors_to_read(0, 127), 0);
    assert_eq!(sectors_to_read(1, 127), 1);
    assert_eq!(sectors_to_read(126, 127), 126);
    assert_eq!(sectors_to_read(127, 127), 127);
    assert_eq!(sectors_to_read(128, 127), 127);
    assert_eq!(sectors_to_read(u32::MAX, 127), 127);
    assert_eq!(sectors_to_read(20, 8), 8);
    assert_eq!(sectors_to_read(0x1_0005, 0xFFFF), 0xFFFF);
}

#[test]
fn packet_at_splits_the_address() {
    assert_eq!(LBA_SECTOR_SIZE, 512);
    let packet = packet_at(20, 0x7E00, 1);
    assert_eq!(packet, DiskAddressPacket::new(20, 0x0, 0x07E0, 1));
    let packet = packet_at(3, 0x8D45, 77);
    assert_eq!(packet.offset(), 0x0005);
    assert_eq!(packet.segment(), 0x08D4);
    assert_eq!(packet.sector_count(), 3);
    assert_eq!(packet.lba_start(), 77);
    let packet = packet_at(1, 0xFFFF, u64::MAX);
    assert_eq!(packet.offset(), 0xF);
    assert_eq!(packet.segment(), 0x0FFF);
    assert_eq!(packet.segment() as u32 * 16 + packet.offset() as u32, 0xFFFF);
    let packet = packet_at(1, 0x17C00, 128);
    assert_eq!(packet, DiskAddressPacket::new(1, 0x0, 0x17C0, 128));
    let packet = packet_at(127, 0xF_FFFF, 0);
    assert_eq!(packet.offset(), 0xF);
    assert_eq!(packet.segment(), 0xFFFF);
}

#[test]
fn load_asks_for_the_read_of_the_packet() {
    let packet = DiskAddressPacket::new(20, 0, 0x07E0, 1);
    assert_eq!(packet.load(0x80), bootloader::firmware::Action::Read { packet, drive: 0x80 });
    assert_ne!(packet.load(0x80), packet.load(0x81));
}
