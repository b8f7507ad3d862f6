//! The block device that the kernel sees: a disk of 512-byte blocks behind
//! one of the controller's ports.

use vstd::prelude::*;
use crate::action::{Action, Timing};
use crate::command::{block_count, spec_block_count, BLOCK_SIZE};
use crate::error::AhciError;
use crate::hba::{Hba, HbaModel};
use crate::port::Request;
use crate::regs::MMIO_SIZE;

verus! {

/// Capacity that the disk reports, in bytes.
pub const DISK_BYTES: u64 = 0x8_0000_0000;

/// The kinds of device that a driver framework tells apart.
#[derive(Clone, Copy, Debug, PartialEq, Eq, Structural)]
pub enum DeviceType {
    /// Block storage.
    Block,
    /// Character device.
    Char,
    /// Network device.
    Net,
    /// Graphic display.
    Display,
}

/// The driver of one controller and the disk behind it.
pub struct AhciDriver {
    mmio_base: usize,
    hba: Hba,
}

/// The state of the driver as the contracts speak of it.
pub struct DriverModel {
    /// Physical address of the controller's register window.
    pub mmio_base: usize,
    /// The controller.
    pub hba: HbaModel,
}

impl DriverModel {
    /// A driver that was not initialized.
    pub open spec fn initial(timing: Timing) -> DriverModel {
        DriverModel { mmio_base: 0, hba: HbaModel::initial(timing) }
    }

    /// Whether the driver is consistent.
    pub open spec fn wf(self) -> bool {
        self.hba.wf()
    }

    /// What the driver does when it is told to initialize the controller
    /// whose registers lie at `mmio_base`: the address is kept if the
    /// controller starts to initialize.
    pub open spec fn init(self, mmio_base: usize) -> (DriverModel, Action) {
        let (hba, action) = self.hba.begin_init();
        if action.spec_is_final() {
            (self, action)
        } else {
            (DriverModel { mmio_base, hba }, action)
        }
    }

    /// What the driver does with a transfer of `len` bytes between block
    /// `block_id` and the buffer at physical address `buffer`: a length
    /// that is not between 1 and 65535 whole blocks is refused before
    /// anything else is looked at, with the driver left as it is;
    /// otherwise the request goes to the controller.
    pub open spec fn transfer(self, write: bool, block_id: u64, buffer: u64, len: usize) -> (
        DriverModel,
        Action,
    ) {
        match spec_block_count(len as int) {
            None => (self, Action::Failed { error: AhciError::InvalidTransferSize }),
            Some(n) => {
                let request = if write {
                    Request::Write { lba: block_id, block_count: n, buffer }
                } else {
                    Request::Read { lba: block_id, block_count: n, buffer }
                };
                let (hba, action) = self.hba.submit(request);
                (DriverModel { hba, ..self }, action)
            },
        }
    }

    /// What the driver does with a flush.
    pub open spec fn flush(self) -> (DriverModel, Action) {
        let (hba, action) = self.hba.submit(Request::Flush);
        (DriverModel { hba, ..self }, action)
    }

    /// What the driver does when it is told to recover its port.
    pub open spec fn recover(self) -> (DriverModel, Action) {
        let (hba, action) = self.hba.recover();
        (DriverModel { hba, ..self }, action)
    }

    /// What the driver does when the platform reports the outcome
    /// `reply` of the action handed out last.
    pub open spec fn step(self, reply: u64) -> (DriverModel, Action) {
        let (hba, action) = self.hba.step(reply);
        (DriverModel { hba, ..self }, action)
    }
}

impl View for AhciDriver {
    type V = DriverModel;

    closed spec fn view(&self) -> DriverModel {
        DriverModel { mmio_base: self.mmio_base, hba: self.hba@ }
    }
}

impl AhciDriver {
    /// Whether the driver is consistent.
    pub closed spec fn wf(&self) -> bool {
        self.hba.wf()
    }

    /// What follows from a driver's consistency for its model.
    pub proof fn lemma_wf(&self)
        requires
            self.wf(),
        ensures
            self@.wf(),
    {
        self.hba.lemma_wf();
    }

    /// A driver that was not initialized, with the standard waits.
    pub fn new() -> (d: AhciDriver)
        ensures
            d.wf(),
            d@ == DriverModel::initial(
                Timing {
                    poll_interval_ms: 1,
                    handoff_polls: 2000,
                    reset_polls: 1000,
                    port_polls: 500,
                    command_polls: 5000,
                },
            ),
    {
        AhciDriver { mmio_base: 0, hba: Hba::new(Timing::standard()) }
    }

    /// A driver that was not initialized, with waits of the caller's
    /// choice.
    pub fn with_timing(timing: Timing) -> (d: AhciDriver)
        ensures
            d.wf(),
            d@ == DriverModel::initial(timing),
    {
        AhciDriver { mmio_base: 0, hba: Hba::new(timing) }
    }

    /// The name of the device.
    pub fn device_name(&self) -> (name: &'static str)
        ensures
            name@ == "ahci"@,
    {
        "ahci"
    }

    /// The kind of the device.
    pub fn device_type(&self) -> (t: DeviceType)
        ensures
            t == DeviceType::Block,
    {
        DeviceType::Block
    }

    /// Physical address of the controller's register window.
    pub fn mmio_base(&self) -> (base: usize)
        ensures
            base == self@.mmio_base,
    {
        self.mmio_base
    }

    /// Size in bytes of the controller's register window.
    pub fn mmio_size(&self) -> (size: usize)
        ensures
            size == 0x10000,
    {
        MMIO_SIZE
    }

    /// Number of blocks on the disk.
    pub fn num_blocks(&self) -> (n: u64)
        ensures
            n == DISK_BYTES / 512,
            n == 0x400_0000,
    {
        DISK_BYTES / (BLOCK_SIZE as u64)
    }

    /// Size of a block in bytes.
    pub fn block_size(&self) -> (size: usize)
        ensures
            size == 512,
    {
        BLOCK_SIZE
    }

    /// The controller.
    pub fn hba(&self) -> (h: &Hba)
        ensures
            h@ == self@.hba,
            self.wf() ==> h.wf(),
    {
        &self.hba
    }

    /// Starts the initialization of the controller whose registers lie at
    /// `mmio_base`.
    pub fn init(&mut self, mmio_base: usize) -> (a: Action)
        requires
            old(self).wf(),
        ensures
            final(self).wf(),
            (final(self)@, a) == old(self)@.init(mmio_base),
    {
        proof {
            self.hba.lemma_wf();
            crate::hba::lemma_begin_init_keeps(self.hba@);
        }
        let a = self.hba.begin_init();
        if !a.is_final() {
            self.mmio_base = mmio_base;
        }
        a
    }

    /// Starts a transfer in either direction.
    fn transfer(&mut self, write: bool, block_id: u64, buffer: u64, len: usize) -> (a: Action)
        requires
            old(self).wf(),
        ensures
            final(self).wf(),
            (final(self)@, a) == old(self)@.transfer(write, block_id, buffer, len),
    {
        match block_count(len) {
            Err(error) => Action::Failed { error },
            Ok(n) => {
                let request = if write {
                    Request::Write { lba: block_id, block_count: n, buffer }
                } else {
                    Request::Read { lba: block_id, block_count: n, buffer }
                };
                self.hba.submit(request)
            },
        }
    }

    /// Starts reading `len` bytes from block `block_id` on into the
    /// buffer at physical address `buffer`.
    pub fn read_block(&mut self, block_id: u64, buffer: u64, len: usize) -> (a: Action)
        requires
            old(self).wf(),
        ensures
            final(self).wf(),
            (final(self)@, a) == old(self)@.transfer(false, block_id, buffer, len),
            len % 512 != 0 || len == 0 || len / 512 > 65535 ==> a == (Action::Failed {
                error: AhciError::InvalidTransferSize,
            }) && final(self)@ == old(self)@,
    {
        self.transfer(false, block_id, buffer, len)
    }

    /// Starts writing `len` bytes from the buffer at physical address
    /// `buffer` to block `block_id` on.
    pub fn write_block(&mut self, block_id: u64, buffer: u64, len: usize) -> (a: Action)
        requires
            old(self).wf(),
        ensures
            final(self).wf(),
            (final(self)@, a) == old(self)@.transfer(true, block_id, buffer, len),
            len % 512 != 0 || len == 0 || len / 512 > 65535 ==> a == (Action::Failed {
                error: AhciError::InvalidTransferSize,
            }) && final(self)@ == old(self)@,
    {
        self.transfer(true, block_id, buffer, len)
    }

    /// Starts a flush of the device's cache.
    pub fn flush(&mut self) -> (a: Action)
        requires
            old(self).wf(),
        ensures
            final(self).wf(),
            (final(self)@, a) == old(self)@.flush(),
    {
        self.hba.submit(Request::Flush)
    }

    /// Starts recovering the disk's port after a failed command.
    pub fn recover(&mut self) -> (a: Action)
        requires
            old(self).wf(),
        ensures
            final(self).wf(),
            (final(self)@, a) == old(self)@.recover(),
    {
        self.hba.recover()
    }

    /// Takes the outcome of the action handed out last and names the
    /// next one.
    pub fn resume(&mut self, reply: u64) -> (a: Action)
        requires
            old(self).wf(),
        ensures
            final(self).wf(),
            (final(self)@, a) == old(self)@.step(reply),
    {
        self.hba.resume(reply)
    }
}

impl Default for AhciDriver {
    fn default() -> (d: AhciDriver)
        ensures
            d.wf(),
            d@ == DriverModel::initial(
                Timing {
                    poll_interval_ms: 1,
                    handoff_polls: 2000,
                    reset_polls: 1000,
                    port_polls: 500,
                    command_polls: 5000,
                },
            ),
    {
        AhciDriver::new()
    }
}

} // verus!
