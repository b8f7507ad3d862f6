use std::collections::HashMap;

use axdriver_ahci::hba::HbaStatus;
use axdriver_ahci::port::PortStatus;
use axdriver_ahci::prdt::PrdEntry;
use axdriver_ahci::sim::SimDisk;
use axdriver_ahci::{Action, AhciDriver, AhciError, Timing};

const DISK_BYTES: usize = 64 * 512;
const MEM_BYTES: usize = 0x2_0000;
const ARENA: u64 = 0x10_0000;

struct MockPort {
    clb: u64,
    fb: u64,
    cmd: u32,
    is: u32,
    serr: u32,
    ci: u32,
}

/// A controller with one disk behind every implemented port, as far as
/// the engine can tell from its registers.
struct Mock {
    cap: u32,
    cap2: u32,
    ghc: u32,
    is: u32,
    pi: u32,
    bohc: u32,
    ports: Vec<MockPort>,
    words: HashMap<u64, u32>,
    disk: SimDisk,
    next_alloc: u64,
    stuck: u32,
    dead: u32,
    reset_stuck: bool,
    handoff_stuck: bool,
    allocations_left: usize,
    log: Vec<Action>,
    slept_ms: u64,
}

impl Mock {
    fn new(pi: u32) -> Mock {
        let mut ports = Vec::new();
        for _ in 0..32 {
            ports.push(MockPort { clb: 0, fb: 0, cmd: 0x8011, is: 0x40, serr: 0x1, ci: 0 });
        }
        Mock {
            cap: 0x8000_1F00 | 31,
            cap2: 0,
            ghc: 0,
            is: 0x5,
            pi,
            bohc: 0,
            ports,
            words: HashMap::new(),
            disk: SimDisk::new(DISK_BYTES, MEM_BYTES),
            next_alloc: ARENA,
            stuck: 0,
            dead: 0,
            reset_stuck: false,
            handoff_stuck: false,
            allocations_left: usize::MAX,
            log: Vec::new(),
            slept_ms: 0,
        }
    }

    fn word(&self, addr: u64) -> u32 {
        *self.words.get(&addr).unwrap_or(&0)
    }

    fn read_reg(&self, offset: u32) -> u32 {
        match offset {
            0x00 => self.cap,
            0x04 => self.ghc,
            0x08 => self.is,
            0x0C => self.pi,
            0x24 => self.cap2,
            0x28 => self.bohc,
            _ => {
                assert!(offset >= 0x100 && offset < 0x1100, "register {offset:#x} does not exist");
                let p = &self.ports[((offset - 0x100) / 0x80) as usize];
                match (offset - 0x100) % 0x80 {
                    0x00 => p.clb as u32,
                    0x04 => (p.clb >> 32) as u32,
                    0x08 => p.fb as u32,
                    0x0C => (p.fb >> 32) as u32,
                    0x10 => p.is,
                    0x18 => p.cmd,
                    0x30 => p.serr,
                    0x38 => p.ci,
                    other => panic!("port register {other:#x} is not modelled"),
                }
            }
        }
    }

    fn write_reg(&mut self, offset: u32, value: u32) {
        match offset {
            0x04 => {
                self.ghc = value;
                if value & 1 != 0 && !self.reset_stuck {
                    self.ghc &= !1;
                }
            }
            0x08 => self.is &= !value,
            0x28 => {
                self.bohc = value;
                if value & 2 != 0 && !self.handoff_stuck {
                    self.bohc &= !1;
                }
            }
            _ => {
                assert!(offset >= 0x100 && offset < 0x1100, "register {offset:#x} does not exist");
                let index = ((offset - 0x100) / 0x80) as usize;
                let dead = self.dead & (1 << index) != 0;
                let stuck = self.stuck & (1 << index) != 0;
                match (offset - 0x100) % 0x80 {
                    0x00 => self.ports[index].clb = (self.ports[index].clb & !0xFFFF_FFFF) | value as u64,
                    0x04 => {
                        self.ports[index].clb = (self.ports[index].clb & 0xFFFF_FFFF) | ((value as u64) << 32)
                    }
                    0x08 => self.ports[index].fb = (self.ports[index].fb & !0xFFFF_FFFF) | value as u64,
                    0x0C => {
                        self.ports[index].fb = (self.ports[index].fb & 0xFFFF_FFFF) | ((value as u64) << 32)
                    }
                    0x10 => self.ports[index].is &= !value,
                    0x18 => {
                        let mut cmd = value & !0xC000;
                        if cmd & 0x1 != 0 && !dead {
                            cmd |= 0x8000;
                        }
                        if cmd & 0x10 != 0 {
                            cmd |= 0x4000;
                        }
                        self.ports[index].cmd = cmd;
                    }
                    0x30 => self.ports[index].serr &= !value,
                    0x38 => {
                        if value & 1 != 0 {
                            if stuck {
                                self.ports[index].ci |= 1;
                            } else {
                                self.execute(index);
                            }
                        }
                    }
                    other => panic!("port register {other:#x} is not modelled"),
                }
            }
        }
    }

    fn execute(&mut self, index: usize) {
        let clb = self.ports[index].clb;
        let fb = self.ports[index].fb;
        let w0 = self.word(clb);
        let descriptors = (w0 >> 16) as u64;
        assert_eq!(w0 & 0x1F, 5, "a register frame is five words long");
        let table = self.word(clb + 8) as u64 | ((self.word(clb + 12) as u64) << 32);
        let mut frame = [0u8; 20];
        for k in 0..5u64 {
            frame[4 * k as usize..4 * k as usize + 4].copy_from_slice(&self.word(table + 4 * k).to_le_bytes());
        }
        let mut prdt = Vec::new();
        for i in 0..descriptors {
            let at = table + 0x80 + 16 * i;
            let addr = self.word(at) as u64 | ((self.word(at + 4) as u64) << 32);
            let bytes = (self.word(at + 12) & 0x3F_FFFF) + 1;
            prdt.push(PrdEntry { addr, bytes });
        }
        let writes = frame[2] == 0x35;
        assert_eq!(w0 & 0x40 != 0, writes, "the write flag goes with the write command");
        match self.disk.execute(&frame, &prdt) {
            Ok(()) => {}
            Err(report) => {
                self.ports[index].is |= 0x4000_0000;
                self.ports[index].ci |= 1;
                self.words.insert(
                    fb + 0x40,
                    0x34 | ((report.status as u32) << 16) | ((report.error as u32) << 24),
                );
            }
        }
    }

    fn perform(&mut self, action: Action) -> u64 {
        self.log.push(action);
        match action {
            Action::ReadReg { offset } => self.read_reg(offset) as u64,
            Action::WriteReg { offset, value } => {
                self.write_reg(offset, value);
                0
            }
            Action::ReadMem { addr } => self.word(addr) as u64,
            Action::WriteMem { addr, value } => {
                self.words.insert(addr, value);
                0
            }
            Action::Allocate { size, align } => {
                if self.allocations_left == 0 {
                    return 0;
                }
                self.allocations_left -= 1;
                let align = align as u64;
                let addr = (self.next_alloc + align - 1) / align * align;
                self.next_alloc = addr + size;
                addr
            }
            Action::Barrier => 0,
            Action::Delay { ms } => {
                self.slept_ms += ms;
                0
            }
            Action::Done | Action::Failed { .. } => panic!("a finished transaction has no next action"),
        }
    }

    fn writes(&self) -> usize {
        self.log
            .iter()
            .filter(|a| matches!(a, Action::WriteReg { .. } | Action::WriteMem { .. }))
            .count()
    }

    fn touched_ports(&self) -> Vec<u32> {
        let mut seen = Vec::new();
        for a in &self.log {
            let offset = match a {
                Action::ReadReg { offset } => *offset,
                Action::WriteReg { offset, .. } => *offset,
                _ => continue,
            };
            if offset >= 0x100 {
                let p = (offset - 0x100) / 0x80;
                if !seen.contains(&p) {
                    seen.push(p);
                }
            }
        }
        seen
    }
}

fn run(driver: &mut AhciDriver, mock: &mut Mock, first: Action) -> Result<(), AhciError> {
    let mut action = first;
    for _ in 0..1_000_000 {
        if let Some(outcome) = action.outcome() {
            return outcome;
        }
        let reply = mock.perform(action);
        action = driver.resume(reply);
    }
    panic!("the transaction did not end");
}

fn quick() -> Timing {
    Timing { poll_interval_ms: 1, handoff_polls: 5, reset_polls: 7, port_polls: 3, command_polls: 10 }
}

fn ready(pi: u32) -> (AhciDriver, Mock) {
    let mut driver = AhciDriver::with_timing(quick());
    let mut mock = Mock::new(pi);
    let first = driver.init(0xFEB0_0000);
    assert_eq!(run(&mut driver, &mut mock, first), Ok(()));
    mock.log.clear();
    mock.slept_ms = 0;
    (driver, mock)
}

fn pattern(len: usize, seed: u8) -> Vec<u8> {
    (0..len).map(|i| (i as u8).wrapping_mul(31).wrapping_add(seed)).collect()
}

#[test]
fn init_brings_up_exactly_the_implemented_ports() {
    let mut driver = AhciDriver::with_timing(quick());
    let mut mock = Mock::new(0b1000_1001);
    let first = driver.init(0xFEB0_0000);
    assert_eq!(first, Action::ReadReg { offset: 0x24 });
    assert_eq!(run(&mut driver, &mut mock, first), Ok(()));
    assert_eq!(driver.mmio_base(), 0xFEB0_0000);
    let hba = driver.hba();
    assert_eq!(hba.status(), HbaStatus::Ready);
    assert_eq!(hba.ports_implemented(), 0b1000_1001);
    assert_eq!(hba.command_slots(), 32);
    assert!(hba.supports_64bit());
    assert_eq!(hba.bound_port(), Some(0));
    for p in 0..32u8 {
        let expected = if p == 0 || p == 3 || p == 7 { PortStatus::Idle } else { PortStatus::Uninitialized };
        assert_eq!(hba.port_status(p), Some(expected), "port {p}");
    }
    assert_eq!(hba.port_status(32), None);
    assert_eq!(mock.touched_ports(), vec![0, 3, 7]);
    assert_eq!(mock.ghc & 0x8000_0000, 0x8000_0000);
    assert_eq!(mock.is, 0);
    for p in [0usize, 3, 7] {
        assert_eq!(mock.ports[p].cmd & 0x11, 0x11);
        assert_eq!(mock.ports[p].is, 0);
        assert_eq!(mock.ports[p].serr, 0);
        assert_eq!(mock.ports[p].clb % 1024, 0);
        assert_eq!(mock.ports[p].fb % 256, 0);
        assert!(mock.ports[p].clb >= ARENA);
    }
}

#[test]
fn a_port_that_fails_leaves_the_others_usable() {
    let mut driver = AhciDriver::with_timing(quick());
    let mut mock = Mock::new(0b0110);
    mock.dead = 0b0010;
    let first = driver.init(0x1000);
    assert_eq!(run(&mut driver, &mut mock, first), Ok(()));
    assert_eq!(driver.hba().port_status(1), Some(PortStatus::Error));
    assert_eq!(driver.hba().port_status(2), Some(PortStatus::Idle));
    assert_eq!(driver.hba().port_status(0), Some(PortStatus::Uninitialized));
    assert_eq!(driver.hba().bound_port(), Some(2));
    assert_eq!(mock.touched_ports(), vec![1, 2]);

    let data = pattern(1024, 7);
    assert!(mock.disk.store(0x1000, &data));
    let first = driver.write_block(5, 0x1000, 1024);
    assert_eq!(run(&mut driver, &mut mock, first), Ok(()));
    let first = driver.read_block(5, 0x4000, 1024);
    assert_eq!(run(&mut driver, &mut mock, first), Ok(()));
    assert_eq!(mock.disk.load(0x4000, 1024), Some(data));
}

#[test]
fn no_port_means_no_disk() {
    let (mut driver, mut mock) = ready(0);
    assert_eq!(driver.hba().bound_port(), None);
    let a = driver.read_block(0, 0x1000, 512);
    assert_eq!(a, Action::Failed { error: AhciError::PortNotResponding });
    let a = driver.flush();
    assert_eq!(a, Action::Failed { error: AhciError::PortNotResponding });
    assert_eq!(mock.perform(Action::Barrier), 0);
    assert_eq!(mock.writes(), 0);
}

#[test]
fn write_then_read_returns_the_bytes() {
    let (mut driver, mut mock) = ready(0b1);
    for (lba, blocks, seed) in [(0u64, 1usize, 1u8), (3, 4, 2), (60, 4, 3), (10, 33, 4)] {
        let len = blocks * 512;
        let data = pattern(len, seed);
        assert!(mock.disk.store(0x800, &data));
        let first = driver.write_block(lba, 0x800, len);
        assert_eq!(run(&mut driver, &mut mock, first), Ok(()));
        assert_eq!(mock.disk.medium(lba * 512, len), Some(data.clone()));
        let first = driver.read_block(lba, 0x1_0000, len);
        assert_eq!(run(&mut driver, &mut mock, first), Ok(()));
        assert_eq!(mock.disk.load(0x1_0000, len), Some(data));
    }
}

#[test]
fn an_uninitialized_driver_refuses_requests() {
    let mut driver = AhciDriver::new();
    assert_eq!(driver.read_block(0, 0x1000, 512), Action::Failed { error: AhciError::PortNotResponding });
    assert_eq!(driver.write_block(0, 0x1000, 512), Action::Failed { error: AhciError::PortNotResponding });
    assert_eq!(driver.flush(), Action::Failed { error: AhciError::PortNotResponding });
    assert_eq!(driver.recover(), Action::Failed { error: AhciError::PortNotResponding });
    assert_eq!(driver.resume(0), Action::Failed { error: AhciError::PortNotResponding });
    assert_eq!(driver.hba().status(), HbaStatus::Uninitialized);
}

#[test]
fn a_bad_length_touches_no_register() {
    let (mut driver, mock) = ready(0b1);
    for len in [0usize, 1, 511, 513, 1000, 65536 * 512, 65536 * 512 + 512] {
        let a = driver.read_block(0, 0x1000, len);
        assert_eq!(a, Action::Failed { error: AhciError::InvalidTransferSize }, "read of {len}");
        let a = driver.write_block(0, 0x1000, len);
        assert_eq!(a, Action::Failed { error: AhciError::InvalidTransferSize }, "write of {len}");
        assert!(!driver.hba().is_busy());
    }
    assert!(mock.log.is_empty());
    assert_eq!(driver.hba().port_status(0), Some(PortStatus::Idle));
}

#[test]
fn blocks_beyond_48_bits_are_rejected() {
    let (mut driver, _mock) = ready(0b1);
    let a = driver.read_block(0x1_0000_0000_0000, 0x1000, 512);
    assert_eq!(a, Action::Failed { error: AhciError::InvalidTransferSize });
    let a = driver.read_block(0xFFFF_FFFF_FFFF, 0x1000, 1024);
    assert_eq!(a, Action::Failed { error: AhciError::InvalidTransferSize });
    let a = driver.read_block(0xFFFF_FFFF_FFFF, 0x1000, 512);
    assert_eq!(a, Action::WriteMem { addr: ARENA, value: 5 | (1 << 16) });
}

#[test]
fn a_stuck_command_times_out_and_the_port_stays_down() {
    let (mut driver, mut mock) = ready(0b1);
    mock.stuck = 0b1;
    let first = driver.write_block(0, 0x1000, 512);
    assert_eq!(run(&mut driver, &mut mock, first), Err(AhciError::CommandTimeout));
    assert_eq!(mock.slept_ms, 10);
    let looks = mock.log.iter().filter(|a| **a == Action::ReadReg { offset: 0x138 }).count();
    assert_eq!(looks, 11);
    assert_eq!(driver.hba().port_status(0), Some(PortStatus::Error));
    assert!(!driver.hba().is_busy());

    mock.log.clear();
    let a = driver.read_block(0, 0x1000, 512);
    assert_eq!(a, Action::Failed { error: AhciError::PortNotResponding });
    let a = driver.flush();
    assert_eq!(a, Action::Failed { error: AhciError::PortNotResponding });
    assert!(mock.log.is_empty());
}

#[test]
fn recovery_makes_the_port_usable_again() {
    let (mut driver, mut mock) = ready(0b1);
    let list = mock.ports[0].clb;
    mock.stuck = 0b1;
    let first = driver.flush();
    assert_eq!(run(&mut driver, &mut mock, first), Err(AhciError::CommandTimeout));
    mock.stuck = 0;
    mock.ports[0].ci = 0;
    mock.log.clear();
    let first = driver.recover();
    assert_eq!(first, Action::ReadReg { offset: 0x118 });
    assert_eq!(run(&mut driver, &mut mock, first), Ok(()));
    assert_eq!(driver.hba().port_status(0), Some(PortStatus::Idle));
    assert!(!mock.log.iter().any(|a| matches!(a, Action::Allocate { .. })));
    assert_eq!(mock.ports[0].clb, list);
    assert_eq!(driver.recover(), Action::Done);

    let data = pattern(512, 9);
    assert!(mock.disk.store(0x1000, &data));
    let first = driver.write_block(1, 0x1000, 512);
    assert_eq!(run(&mut driver, &mut mock, first), Ok(()));
    assert_eq!(mock.disk.medium(512, 512), Some(data));
}

#[test]
fn a_device_error_carries_the_task_file() {
    let (mut driver, mut mock) = ready(0b1);
    let first = driver.read_block(63, 0x1000, 1024);
    assert_eq!(
        run(&mut driver, &mut mock, first),
        Err(AhciError::DeviceError { status: 0x41, error: 0x10 })
    );
    assert_eq!(driver.hba().port_status(0), Some(PortStatus::Error));
    let fb = mock.ports[0].fb;
    assert!(mock.log.contains(&Action::ReadMem { addr: fb + 0x40 }));

    let first = driver.read_block(0, 0x2_0000 - 256, 512);
    assert_eq!(first, Action::Failed { error: AhciError::PortNotResponding });
}

#[test]
fn a_buffer_outside_memory_is_aborted_by_the_device() {
    let (mut driver, mut mock) = ready(0b1);
    let first = driver.write_block(0, 0x2_0000 - 256, 512);
    assert_eq!(
        run(&mut driver, &mut mock, first),
        Err(AhciError::DeviceError { status: 0x41, error: 0x04 })
    );
}

#[test]
fn flush_issues_a_command_without_data() {
    let (mut driver, mut mock) = ready(0b1);
    let list = mock.ports[0].clb;
    let first = driver.flush();
    assert_eq!(first, Action::WriteMem { addr: list, value: 5 });
    assert_eq!(run(&mut driver, &mut mock, first), Ok(()));
    let stores = mock.log.iter().filter(|a| matches!(a, Action::WriteMem { .. })).count();
    assert_eq!(stores, 8 + 32);
    assert_eq!(mock.word(list) >> 16, 0);
    let table = mock.word(list + 8) as u64;
    assert_eq!(mock.word(table), 0x00EA_8027);
    assert_eq!(mock.word(table + 4), 0);
    assert_eq!(mock.word(table + 12), 0);
    let doorbell = mock.log.iter().position(|a| *a == Action::WriteReg { offset: 0x138, value: 1 }).unwrap();
    assert_eq!(mock.log[doorbell - 1], Action::Barrier);
    assert_eq!(*mock.log.last().unwrap(), Action::Barrier);
}

#[test]
fn flush_does_not_depend_on_what_was_served_before() {
    let (mut fresh, mut fresh_mock) = ready(0b1);
    let (mut used, mut used_mock) = ready(0b1);
    let data = pattern(2048, 5);
    assert!(used_mock.disk.store(0x1000, &data));
    let first = used.write_block(2, 0x1000, 2048);
    assert_eq!(run(&mut used, &mut used_mock, first), Ok(()));
    let first = used.read_block(2, 0x3000, 2048);
    assert_eq!(run(&mut used, &mut used_mock, first), Ok(()));
    used_mock.log.clear();
    let first = used.flush();
    assert_eq!(run(&mut used, &mut used_mock, first), Ok(()));
    let first = fresh.flush();
    assert_eq!(run(&mut fresh, &mut fresh_mock, first), Ok(()));
    assert_eq!(used_mock.log, fresh_mock.log);
}

#[test]
fn a_write_lays_out_header_frame_and_descriptor() {
    let (mut driver, mut mock) = ready(0b1);
    let list = mock.ports[0].clb;
    let first = driver.write_block(0xA1B2_C3D4_E5F6, 0x1200, 1024);
    let mut action = first;
    let mut script = Vec::new();
    while !matches!(action, Action::ReadReg { .. }) {
        script.push(action);
        mock.log.push(action);
        if let Action::WriteMem { addr, value } = action {
            mock.words.insert(addr, value);
        }
        action = driver.resume(0);
    }
    assert_eq!(script.len(), 8 + 32 + 4 + 2);
    let table = mock.word(list + 8) as u64 | ((mock.word(list + 12) as u64) << 32);
    assert_eq!(table % 128, 0);
    assert_eq!(mock.word(list), 5 | 0x40 | (1 << 16));
    assert_eq!(mock.word(list + 4), 0);
    assert_eq!(mock.word(table), 0x0035_8027);
    assert_eq!(mock.word(table + 4), 0x40D4_E5F6);
    assert_eq!(mock.word(table + 8), 0x00A1_B2C3);
    assert_eq!(mock.word(table + 12), 2);
    assert_eq!(mock.word(table + 0x80), 0x1200);
    assert_eq!(mock.word(table + 0x84), 0);
    assert_eq!(mock.word(table + 0x88), 0);
    assert_eq!(mock.word(table + 0x8C), 1023);
    assert_eq!(script[script.len() - 2], Action::Barrier);
    assert_eq!(script[script.len() - 1], Action::WriteReg { offset: 0x138, value: 1 });
    assert_eq!(action, Action::ReadReg { offset: 0x110 });
}

#[test]
fn the_firmware_hands_the_controller_over() {
    let mut driver = AhciDriver::with_timing(quick());
    let mut mock = Mock::new(0b1);
    mock.cap2 = 1;
    mock.bohc = 1;
    let first = driver.init(0);
    assert_eq!(run(&mut driver, &mut mock, first), Ok(()));
    assert_eq!(mock.bohc, 2);
    assert!(mock.log.contains(&Action::WriteReg { offset: 0x28, value: 3 }));
    assert_eq!(driver.hba().status(), HbaStatus::Ready);
}

#[test]
fn a_firmware_that_keeps_the_controller_fails_the_handoff() {
    let mut driver = AhciDriver::with_timing(quick());
    let mut mock = Mock::new(0b1);
    mock.cap2 = 1;
    mock.bohc = 1;
    mock.handoff_stuck = true;
    let first = driver.init(0);
    assert_eq!(run(&mut driver, &mut mock, first), Err(AhciError::HandoffTimeout));
    assert_eq!(mock.slept_ms, 5);
    assert_eq!(driver.hba().status(), HbaStatus::Failed);
    assert_eq!(mock.touched_ports(), Vec::<u32>::new());
    assert_eq!(driver.read_block(0, 0, 512), Action::Failed { error: AhciError::PortNotResponding });
}

#[test]
fn a_reset_that_never_ends_fails_the_init() {
    let mut driver = AhciDriver::with_timing(quick());
    let mut mock = Mock::new(0b1);
    mock.reset_stuck = true;
    let first = driver.init(0);
    assert_eq!(run(&mut driver, &mut mock, first), Err(AhciError::ResetTimeout));
    assert_eq!(mock.slept_ms, 7);
    assert_eq!(driver.hba().status(), HbaStatus::Failed);

    mock.reset_stuck = false;
    mock.ghc = 0;
    let first = driver.init(0);
    assert_eq!(run(&mut driver, &mut mock, first), Ok(()));
    assert_eq!(driver.hba().bound_port(), Some(0));
}

#[test]
fn a_port_without_memory_is_in_error() {
    let mut driver = AhciDriver::with_timing(quick());
    let mut mock = Mock::new(0b11);
    mock.allocations_left = 2;
    let first = driver.init(0);
    assert_eq!(run(&mut driver, &mut mock, first), Ok(()));
    assert_eq!(driver.hba().port_status(0), Some(PortStatus::Error));
    assert_eq!(driver.hba().port_status(1), Some(PortStatus::Error));
    assert_eq!(driver.hba().bound_port(), None);
}

#[test]
fn a_narrow_controller_refuses_memory_it_cannot_reach() {
    let mut driver = AhciDriver::with_timing(quick());
    let mut mock = Mock::new(0b1);
    mock.cap = 0x0000_0500;
    mock.next_alloc = 0x1_0000_0000;
    let first = driver.init(0);
    assert_eq!(run(&mut driver, &mut mock, first), Ok(()));
    assert!(!driver.hba().supports_64bit());
    assert_eq!(driver.hba().command_slots(), 6);
    assert_eq!(driver.hba().port_status(0), Some(PortStatus::Error));

    let mut mock = Mock::new(0b1);
    mock.cap = 0x0000_0500;
    let first = driver.init(0);
    assert_eq!(run(&mut driver, &mut mock, first), Ok(()));
    assert_eq!(driver.hba().port_status(0), Some(PortStatus::Idle));
    let a = driver.read_block(0, 0xFFFF_FF00, 512);
    assert_eq!(a, Action::Failed { error: AhciError::InvalidTransferSize });
}

#[test]
fn init_is_refused_while_a_command_is_under_way() {
    let (mut driver, mut mock) = ready(0b1);
    let first = driver.flush();
    assert!(driver.hba().is_busy());
    assert_eq!(driver.init(0x5000), Action::Failed { error: AhciError::PortNotResponding });
    assert_eq!(driver.flush(), Action::Failed { error: AhciError::PortNotResponding });
    assert_eq!(driver.mmio_base(), 0xFEB0_0000);
    assert_eq!(run(&mut driver, &mut mock, first), Ok(()));
    assert!(!driver.hba().is_busy());
}

/// A platform that answers every read with noise.
struct Noise {
    state: u64,
    steps: u64,
}

impl Noise {
    fn perform(&mut self, _action: Action) -> u64 {
        self.steps += 1;
        self.state = self.state.wrapping_mul(6364136223846793005).wrapping_add(1442695040888963407);
        self.state >> 16
    }
}

#[test]
fn every_transaction_ends_whatever_the_platform_answers() {
    for seed in 0..200u64 {
        let mut driver = AhciDriver::with_timing(quick());
        let mut noise = Noise { state: seed, steps: 0 };
        let mut action = driver.init(0);
        while action.outcome().is_none() {
            let reply = noise.perform(action);
            action = driver.resume(reply);
            assert!(noise.steps <= 2 * 5 + 2 * 7 + 32 * (4 * 3 + 82) + 13, "seed {seed}");
        }
        assert!(!driver.hba().is_busy());
        noise.steps = 0;
        let mut action = driver.read_block(1, 0x1000, 512);
        while action.outcome().is_none() {
            let reply = noise.perform(action);
            action = driver.resume(reply);
            assert!(noise.steps <= 8 + 36 + 3 + 3 * 10 + 3, "seed {seed}");
        }
        assert!(!driver.hba().is_busy());
    }
}

#[test]
fn overlapping_regions_are_refused() {
    let mut driver = AhciDriver::with_timing(quick());
    let mut mock = Mock::new(0b1);
    let mut action = driver.init(0);
    let mut given = 0;
    while action.outcome().is_none() {
        let reply = match action {
            Action::Allocate { .. } => {
                given += 1;
                0x10_0000
            }
            other => mock.perform(other),
        };
        action = driver.resume(reply);
    }
    assert_eq!(action, Action::Done);
    assert_eq!(given, 2);
    assert_eq!(driver.hba().port_status(0), Some(PortStatus::Error));
}
