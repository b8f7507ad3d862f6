use axdriver_ahci::command::{
    build_flush, build_rw, check_apart, check_region, CommandHeader, Direction, DmaArea,
};
use axdriver_ahci::fis::{d2h_status_error, AtaCommand, RegH2d};
use axdriver_ahci::hba::next_implemented_port;
use axdriver_ahci::memory::{dma_layout, is_power_of_two};
use axdriver_ahci::prdt::{split_buffer, PrdEntry};
use axdriver_ahci::regs::{port_reg, PortReg};
use axdriver_ahci::sim::{SimDisk, TaskFile};
use axdriver_ahci::{Action, AhciError, FailureClass, Timing};

#[test]
fn port_registers_lie_in_blocks_of_128_bytes() {
    assert_eq!(port_reg(0, PortReg::Clb), 0x100);
    assert_eq!(port_reg(0, PortReg::Ci), 0x138);
    assert_eq!(port_reg(1, PortReg::Cmd), 0x198);
    assert_eq!(port_reg(3, PortReg::Is), 0x290);
    assert_eq!(port_reg(31, PortReg::Serr), 0x100 + 31 * 0x80 + 0x30);
    assert_eq!(PortReg::Clbu.offset(), 0x04);
    assert_eq!(PortReg::Fb.offset(), 0x08);
    assert_eq!(PortReg::Fbu.offset(), 0x0C);
    assert_eq!(PortReg::Tfd.offset(), 0x20);
}

#[test]
fn failures_fall_into_three_classes() {
    assert_eq!(AhciError::InvalidTransferSize.class(), FailureClass::InvalidParam);
    assert_eq!(AhciError::PortNotResponding.class(), FailureClass::BadState);
    assert_eq!(AhciError::HandoffTimeout.class(), FailureClass::Io);
    assert_eq!(AhciError::ResetTimeout.class(), FailureClass::Io);
    assert_eq!(AhciError::CommandTimeout.class(), FailureClass::Io);
    assert_eq!(AhciError::DeviceError { status: 0x51, error: 0x40 }.class(), FailureClass::Io);
}

#[test]
fn opcodes_of_the_three_commands() {
    assert_eq!(AtaCommand::ReadDmaExt.opcode(), 0x25);
    assert_eq!(AtaCommand::WriteDmaExt.opcode(), 0x35);
    assert_eq!(AtaCommand::FlushCacheExt.opcode(), 0xEA);
    assert_eq!(AtaCommand::from_opcode(0x25), Some(AtaCommand::ReadDmaExt));
    assert_eq!(AtaCommand::from_opcode(0x35), Some(AtaCommand::WriteDmaExt));
    assert_eq!(AtaCommand::from_opcode(0xEA), Some(AtaCommand::FlushCacheExt));
    assert_eq!(AtaCommand::from_opcode(0xEC), None);
}

#[test]
fn frames_that_are_no_command_are_not_decoded() {
    let f = RegH2d { command: AtaCommand::WriteDmaExt, lba: 0xFFFF_FFFF_FFFF, count: 0xFFFF, device: 0x40 };
    let good = f.encode();
    assert_eq!(RegH2d::decode(&good), Some(f));
    for (at, value) in [(0usize, 0x34u8), (1, 0x00), (2, 0xEC), (3, 1), (11, 1), (14, 1), (19, 1)] {
        let mut bad = good;
        bad[at] = value;
        assert_eq!(RegH2d::decode(&bad), None, "byte {at}");
    }
}

#[test]
fn status_and_error_come_from_the_posted_frame() {
    assert_eq!(d2h_status_error(0x1041_0034), (0x41, 0x10));
    assert_eq!(d2h_status_error(0xFF00_0000), (0x00, 0xFF));
    assert_eq!(d2h_status_error(0x0000_FFFF), (0x00, 0x00));
}

#[test]
fn a_buffer_is_split_into_full_chunks_and_a_rest() {
    assert_eq!(split_buffer(0x1000, 0), vec![]);
    assert_eq!(split_buffer(0x1000, 512), vec![PrdEntry { addr: 0x1000, bytes: 512 }]);
    assert_eq!(split_buffer(0x1000, 0x3F_FE00), vec![PrdEntry { addr: 0x1000, bytes: 0x3F_FE00 }]);
    assert_eq!(
        split_buffer(0x1000, 0x3F_FE00 + 512),
        vec![PrdEntry { addr: 0x1000, bytes: 0x3F_FE00 }, PrdEntry { addr: 0x1000 + 0x3F_FE00, bytes: 512 }]
    );
    let all = split_buffer(0x2_0000_0000, 65535 * 512);
    assert_eq!(all.len(), 9);
    for (i, e) in all.iter().enumerate() {
        assert_eq!(e.addr, 0x2_0000_0000 + i as u64 * 0x3F_FE00);
        assert!(e.bytes >= 1 && e.bytes <= 0x3F_FFFF);
    }
    assert_eq!(all[8].bytes, 65535 * 512 - 8 * 0x3F_FE00);
}

#[test]
fn a_descriptor_is_four_words() {
    let e = PrdEntry { addr: 0x0000_0012_3456_7890, bytes: 0x20_0000 };
    assert_eq!(e.words(), [0x3456_7890, 0x12, 0, 0x1F_FFFF]);
    let e = PrdEntry { addr: 2, bytes: 1 };
    assert_eq!(e.words(), [2, 0, 0, 0]);
}

#[test]
fn a_header_is_eight_words() {
    let h = CommandHeader { fis_len: 5, write: true, prdt_len: 3, byte_count: 1536, table_addr: 0x1_0000_4080 };
    assert_eq!(h.words(), [5 | 0x40 | (3 << 16), 0, 0x4080, 1, 0, 0, 0, 0]);
    let h = CommandHeader { fis_len: 5, write: false, prdt_len: 0, byte_count: 0, table_addr: 0x80 };
    assert_eq!(h.words(), [5, 0, 0x80, 0, 0, 0, 0, 0]);
}

#[test]
fn a_table_holds_frame_gap_and_descriptors() {
    let dma = DmaArea { list: 0x1000, fis: 0x2000, table: 0x3000, wide: false };
    let c = build_rw(&dma, 0x10, 2, 0x8000, Direction::Read).unwrap();
    let image = c.table_image();
    assert_eq!(image.len(), 32 + 4);
    assert_eq!(image[0], 0x0025_8027);
    assert_eq!(image[1], 0x4000_0010);
    assert_eq!(image[2], 0);
    assert_eq!(image[3], 2);
    assert!(image[4..32].iter().all(|w| *w == 0));
    assert_eq!(&image[32..], &[0x8000, 0, 0, 1023]);
    assert_eq!(build_flush(&dma).table_image().len(), 32);
}

#[test]
fn transfers_out_of_reach_are_rejected() {
    let narrow = DmaArea { list: 0x1000, fis: 0x2000, table: 0x3000, wide: false };
    let wide = DmaArea { wide: true, ..narrow };
    assert!(build_rw(&narrow, 0, 1, 0xFFFF_FE00, Direction::Read).is_ok());
    assert!(matches!(
        build_rw(&narrow, 0, 1, 0xFFFF_FE01, Direction::Read),
        Err(AhciError::InvalidTransferSize)
    ));
    assert!(build_rw(&wide, 0, 1, 0xFFFF_FE01, Direction::Read).is_ok());
    assert!(matches!(
        build_rw(&wide, 0, 1, u64::MAX - 511, Direction::Write),
        Err(AhciError::InvalidTransferSize)
    ));
    assert!(build_rw(&wide, 0, 1, u64::MAX - 512, Direction::Write).is_ok());
    assert!(build_rw(&wide, 0xFFFF_FFFF_FFFF, 1, 0x1000, Direction::Read).is_ok());
    assert!(matches!(
        build_rw(&wide, 0xFFFF_FFFF_FFFF, 2, 0x1000, Direction::Read),
        Err(AhciError::InvalidTransferSize)
    ));
    assert!(matches!(
        build_rw(&wide, u64::MAX, 1, 0x1000, Direction::Read),
        Err(AhciError::InvalidTransferSize)
    ));
}

#[test]
fn regions_must_be_allocated_aligned_and_within_reach() {
    assert!(check_region(0x400, 0x400, 0x400, false));
    assert!(!check_region(0, 0x400, 0x400, false));
    assert!(!check_region(0x500, 0x400, 0x400, false));
    assert!(check_region(0xFFFF_FC00, 0x400, 0x400, false));
    assert!(!check_region(0x1_0000_0000, 0x400, 0x400, false));
    assert!(check_region(0x1_0000_0000, 0x400, 0x400, true));
    assert!(check_apart(0x1000, 0x400, 0x1400, 0x100));
    assert!(check_apart(0x1400, 0x100, 0x1000, 0x400));
    assert!(!check_apart(0x1000, 0x400, 0x13FF, 0x100));
    assert!(!check_apart(0x1000, 0x400, 0x1000, 0x400));
    let good = DmaArea { list: 0x1000, fis: 0x1400, table: 0x1500, wide: false };
    assert!(good.is_usable());
    assert!(!DmaArea { table: 0x1400, ..good }.is_usable());
    assert!(!DmaArea { fis: 0x1300, ..good }.is_usable());
    assert!(!DmaArea { list: 0, ..good }.is_usable());
}

#[test]
fn only_powers_of_two_align() {
    for k in 0..32 {
        assert!(is_power_of_two(1 << k));
    }
    for n in [0u32, 3, 5, 6, 12, 0x401, 0xFFFF_FFFF, 0x8000_0001] {
        assert!(!is_power_of_two(n), "{n}");
    }
    assert_eq!(dma_layout(1024, 1024), Some((1024, 1024)));
    assert_eq!(dma_layout(0x180, 0x80), Some((0x180, 0x80)));
    assert_eq!(dma_layout(1024, 0), None);
    assert_eq!(dma_layout(1024, 768), None);
    assert_eq!(dma_layout(u64::MAX, 8), None);
    assert_eq!(dma_layout(isize::MAX as u64 - 7, 8), Some((isize::MAX as usize - 7, 8)));
    assert_eq!(dma_layout(isize::MAX as u64 - 6, 8), None);
}

#[test]
fn implemented_ports_are_found_in_order() {
    assert_eq!(next_implemented_port(0, 0), None);
    assert_eq!(next_implemented_port(0b1001_0100, 0), Some(2));
    assert_eq!(next_implemented_port(0b1001_0100, 3), Some(4));
    assert_eq!(next_implemented_port(0b1001_0100, 5), Some(7));
    assert_eq!(next_implemented_port(0b1001_0100, 8), None);
    assert_eq!(next_implemented_port(0x8000_0000, 0), Some(31));
    assert_eq!(next_implemented_port(0xFFFF_FFFF, 32), None);
    assert_eq!(next_implemented_port(0xFFFF_FFFF, 200), None);
}

#[test]
fn the_standard_waits() {
    let t = Timing::standard();
    assert_eq!(t.poll_interval_ms, 1);
    assert_eq!(t.handoff_polls, 2000);
    assert_eq!(t.reset_polls, 1000);
    assert_eq!(t.port_polls, 500);
    assert_eq!(t.command_polls, 5000);
}

#[test]
fn only_outcomes_end_a_transaction() {
    assert_eq!(Action::Done.outcome(), Some(Ok(())));
    assert_eq!(
        Action::Failed { error: AhciError::ResetTimeout }.outcome(),
        Some(Err(AhciError::ResetTimeout))
    );
    assert!(Action::Done.is_final());
    for a in [
        Action::ReadReg { offset: 0 },
        Action::WriteReg { offset: 4, value: 1 },
        Action::ReadMem { addr: 8 },
        Action::WriteMem { addr: 8, value: 2 },
        Action::Allocate { size: 1024, align: 1024 },
        Action::Barrier,
        Action::Delay { ms: 1 },
    ] {
        assert_eq!(a.outcome(), None);
        assert!(!a.is_final());
    }
}

fn frame(command: AtaCommand, lba: u64, count: u16) -> [u8; 20] {
    RegH2d { command, lba, count, device: 0x40 }.encode()
}

#[test]
fn the_disk_moves_sectors_by_the_descriptors() {
    let mut d = SimDisk::new(8 * 512, 4096);
    let data: Vec<u8> = (0..1024u32).map(|i| (i * 7 + 3) as u8).collect();
    assert!(d.store(100, &data[..512]));
    assert!(d.store(2000, &data[512..]));
    let scattered = vec![PrdEntry { addr: 100, bytes: 512 }, PrdEntry { addr: 2000, bytes: 512 }];
    assert_eq!(d.execute(&frame(AtaCommand::WriteDmaExt, 3, 2), &scattered), Ok(()));
    assert_eq!(d.medium(3 * 512, 1024), Some(data.clone()));
    assert_eq!(d.medium(2 * 512, 512), Some(vec![0; 512]));

    let uneven = vec![
        PrdEntry { addr: 3000, bytes: 2 },
        PrdEntry { addr: 3002, bytes: 1000 },
        PrdEntry { addr: 600, bytes: 22 },
    ];
    assert_eq!(d.execute(&frame(AtaCommand::ReadDmaExt, 3, 2), &uneven), Ok(()));
    assert_eq!(d.load(3000, 1002), Some(data[..1002].to_vec()));
    assert_eq!(d.load(600, 22), Some(data[1002..].to_vec()));
    assert_eq!(d.execute(&frame(AtaCommand::FlushCacheExt, 0, 0), &vec![]), Ok(()));
}

#[test]
fn the_disk_refuses_what_it_cannot_do() {
    let mut d = SimDisk::new(8 * 512, 4096);
    let one = vec![PrdEntry { addr: 0, bytes: 512 }];
    let not_found = Err(TaskFile { status: 0x41, error: 0x10 });
    let aborted = Err(TaskFile { status: 0x41, error: 0x04 });
    assert_eq!(d.execute(&frame(AtaCommand::ReadDmaExt, 8, 1), &one), not_found);
    assert_eq!(d.execute(&frame(AtaCommand::ReadDmaExt, 7, 2), &one), not_found);
    assert_eq!(d.execute(&frame(AtaCommand::ReadDmaExt, 0, 0), &one), not_found);
    assert_eq!(d.execute(&frame(AtaCommand::ReadDmaExt, 7, 1), &one), Ok(()));
    assert_eq!(d.execute(&frame(AtaCommand::WriteDmaExt, 0, 2), &one), aborted);
    assert_eq!(d.execute(&frame(AtaCommand::WriteDmaExt, 0, 1), &vec![]), aborted);
    let outside = vec![PrdEntry { addr: 4096 - 511, bytes: 512 }];
    assert_eq!(d.execute(&frame(AtaCommand::WriteDmaExt, 0, 1), &outside), aborted);
    let mut garbage = frame(AtaCommand::WriteDmaExt, 0, 1);
    garbage[0] = 0x46;
    assert_eq!(d.execute(&garbage, &one), aborted);
    assert_eq!(d.medium(0, 8 * 512), Some(vec![0; 8 * 512]));
    assert!(!d.store(4000, &[0; 100]));
    assert_eq!(d.load(4000, 100), None);
    assert_eq!(d.medium(8 * 512, 1), None);
    assert_eq!(d.load(4096, 0), Some(vec![]));
}
