//! Register map of the controller: offsets within the register window and
//! the bits of each register that the driver reads or writes.

use vstd::prelude::*;

verus! {

/// Size in bytes of the register window that has to be mapped.
pub const MMIO_SIZE: usize = 0x10000;

/// Host capabilities.
pub const HBA_CAP: u32 = 0x00;
/// Global host control.
pub const HBA_GHC: u32 = 0x04;
/// Interrupt status, one bit per port, write 1 to clear.
pub const HBA_IS: u32 = 0x08;
/// Ports implemented, one bit per port.
pub const HBA_PI: u32 = 0x0C;
/// Extended host capabilities.
pub const HBA_CAP2: u32 = 0x24;
/// Firmware/OS handoff control and status.
pub const HBA_BOHC: u32 = 0x28;

/// CAP: the controller takes 64-bit addresses.
pub const CAP_S64A: u32 = 0x8000_0000;
/// CAP2: the handoff mechanism is present.
pub const CAP2_BOH: u32 = 0x0000_0001;

/// GHC: controller reset; hardware clears the bit when the reset is over.
pub const GHC_HR: u32 = 0x0000_0001;
/// GHC: AHCI mode enabled.
pub const GHC_AE: u32 = 0x8000_0000;

/// BOHC: the firmware owns the controller.
pub const BOHC_BOS: u32 = 0x0000_0001;
/// BOHC: the OS requests ownership.
pub const BOHC_OOS: u32 = 0x0000_0002;
/// BOHC: the firmware is still cleaning up.
pub const BOHC_BB: u32 = 0x0000_0010;

/// Number of ports a controller can implement.
pub const MAX_PORTS: u8 = 32;
/// Offset of the first port's register block.
pub const PORT_BASE: u32 = 0x100;
/// Distance between the register blocks of two neighbouring ports.
pub const PORT_STRIDE: u32 = 0x80;

/// PxCMD: the command list is processed.
pub const PORT_CMD_ST: u32 = 0x0000_0001;
/// PxCMD: received FISes are posted to memory.
pub const PORT_CMD_FRE: u32 = 0x0000_0010;
/// PxCMD: the FIS receive engine is running.
pub const PORT_CMD_FR: u32 = 0x0000_4000;
/// PxCMD: the command list engine is running.
pub const PORT_CMD_CR: u32 = 0x0000_8000;

/// PxIS: task-file error.
pub const PORT_IS_TFES: u32 = 0x4000_0000;
/// PxIS: host bus fatal error.
pub const PORT_IS_HBFS: u32 = 0x2000_0000;
/// PxIS: host bus data error.
pub const PORT_IS_HBDS: u32 = 0x1000_0000;
/// PxIS: interface fatal error.
pub const PORT_IS_IFS: u32 = 0x0800_0000;
/// PxIS: every bit that ends a command in failure.
pub const PORT_IS_ERRORS: u32 = 0x7800_0000;

/// The bit of PxCI that belongs to slot 0 of the command list, the slot
/// that carries every command.
pub const COMMAND_SLOT_BIT: u32 = 0x0000_0001;
/// Written to a write-1-to-clear register to clear all of it.
pub const CLEAR_ALL: u32 = 0xFFFF_FFFF;

/// The registers of one port.
#[derive(Clone, Copy, Debug, PartialEq, Eq, Structural)]
pub enum PortReg {
    /// Command list base address, low half.
    Clb,
    /// Command list base address, high half.
    Clbu,
    /// Received-FIS base address, low half.
    Fb,
    /// Received-FIS base address, high half.
    Fbu,
    /// Interrupt status, write 1 to clear.
    Is,
    /// Command and status.
    Cmd,
    /// Task file data.
    Tfd,
    /// SATA error, write 1 to clear.
    Serr,
    /// Command issue, one bit per slot.
    Ci,
}

impl PortReg {
    /// Offset of the register within its port's block.
    pub open spec fn spec_offset(self) -> u32 {
        match self {
            PortReg::Clb => 0x00,
            PortReg::Clbu => 0x04,
            PortReg::Fb => 0x08,
            PortReg::Fbu => 0x0C,
            PortReg::Is => 0x10,
            PortReg::Cmd => 0x18,
            PortReg::Tfd => 0x20,
            PortReg::Serr => 0x30,
            PortReg::Ci => 0x38,
        }
    }

    /// Offset of the register within its port's block.
    pub fn offset(self) -> (off: u32)
        ensures
            off == self.spec_offset(),
            off < PORT_STRIDE,
    {
        match self {
            PortReg::Clb => 0x00,
            PortReg::Clbu => 0x04,
            PortReg::Fb => 0x08,
            PortReg::Fbu => 0x0C,
            PortReg::Is => 0x10,
            PortReg::Cmd => 0x18,
            PortReg::Tfd => 0x20,
            PortReg::Serr => 0x30,
            PortReg::Ci => 0x38,
        }
    }
}

/// Offset of register `reg` of port `port` within the register window.
pub open spec fn spec_port_reg(port: u8, reg: PortReg) -> u32 {
    (PORT_BASE + port * PORT_STRIDE + reg.spec_offset()) as u32
}

/// Offset of register `reg` of port `port` within the register window.
pub fn port_reg(port: u8, reg: PortReg) -> (off: u32)
    ensures
        off == spec_port_reg(port, reg),
        off == 0x100 + port * 0x80 + reg.spec_offset(),
        port < MAX_PORTS ==> off + 4 <= MMIO_SIZE,
{
    PORT_BASE + (port as u32) * PORT_STRIDE + reg.offset()
}

/// PxIS shows a failure exactly when one of its four error bits is set.
pub proof fn lemma_error_bits(is: u32)
    by (bit_vector)
    ensures
        is & PORT_IS_ERRORS != 0 <==> (is & PORT_IS_TFES != 0 || is & PORT_IS_HBFS != 0 || is
            & PORT_IS_HBDS != 0 || is & PORT_IS_IFS != 0),
{
}

} // verus!
