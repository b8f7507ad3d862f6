use axdriver_ahci::command::{block_count, build_flush, build_rw, Direction, DmaArea};
use axdriver_ahci::fis::{AtaCommand, RegH2d};
use axdriver_ahci::{Action, AhciDriver, AhciError, DeviceType};

fn area() -> DmaArea {
    DmaArea { list: 0x1000, fis: 0x2000, table: 0x3000, wide: true }
}

#[test]
fn identity_of_the_device() {
    let d = AhciDriver::new();
    assert_eq!(d.device_name(), "ahci");
    assert_eq!(d.device_type(), DeviceType::Block);
    assert_eq!(d.mmio_size(), 0x10000);
    assert_eq!(d.block_size(), 512);
    assert_eq!(d.num_blocks(), 32 * 1024 * 1024 * 1024 / 512);
    assert_eq!(d.mmio_base(), 0);
}

#[test]
fn block_count_boundaries() {
    assert_eq!(block_count(0), Err(AhciError::InvalidTransferSize));
    assert_eq!(block_count(512), Ok(1));
    assert_eq!(block_count(513), Err(AhciError::InvalidTransferSize));
    assert_eq!(block_count(65535 * 512), Ok(65535));
    assert_eq!(block_count(65536 * 512), Err(AhciError::InvalidTransferSize));
}

#[test]
fn zero_blocks_are_rejected() {
    let r = build_rw(&area(), 0, 0, 0x10_0000, Direction::Read);
    assert!(matches!(r, Err(AhciError::InvalidTransferSize)));
}

#[test]
fn largest_count_is_accepted() {
    let c = build_rw(&area(), 7, 65535, 0x10_0000, Direction::Write).unwrap();
    assert_eq!(c.fis.count, 65535);
    assert_eq!(c.header.byte_count, 65535 * 512);
    assert_eq!(c.prdt.len(), 9);
    assert_eq!(c.header.prdt_len, 9);
    let total: u64 = c.prdt.iter().map(|e| e.bytes as u64).sum();
    assert_eq!(total, 65535 * 512);
}

#[test]
fn frame_layout_of_a_read() {
    let f = RegH2d { command: AtaCommand::ReadDmaExt, lba: 0x0000_A1B2_C3D4_E5F6, count: 0x1234, device: 0x40 };
    let b = f.encode();
    assert_eq!(
        b,
        [0x27, 0x80, 0x25, 0, 0xF6, 0xE5, 0xD4, 0x40, 0xC3, 0xB2, 0xA1, 0, 0x34, 0x12, 0, 0, 0, 0, 0, 0]
    );
    assert_eq!(RegH2d::decode(&b), Some(f));
}

#[test]
fn flush_has_no_data_phase() {
    let c = build_flush(&area());
    assert_eq!(c.prdt.len(), 0);
    assert_eq!(c.header.prdt_len, 0);
    assert_eq!(c.header.byte_count, 0);
    assert!(!c.header.write);
    assert_eq!(c.fis.command, AtaCommand::FlushCacheExt);
}

#[test]
fn misaligned_length_fails_before_any_action() {
    let mut d = AhciDriver::new();
    let a = d.read_block(0, 0x10_0000, 100);
    assert_eq!(a, Action::Failed { error: AhciError::InvalidTransferSize });
    let a = d.write_block(0, 0x10_0000, 1000);
    assert_eq!(a, Action::Failed { error: AhciError::InvalidTransferSize });
}
