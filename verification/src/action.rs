//! What the engine asks the platform to do.

use vstd::prelude::*;
use crate::error::AhciError;

verus! {

/// One step of a transaction. The platform performs the step and calls
/// `resume` with its outcome: the value read for [`Action::ReadReg`] and
/// [`Action::ReadMem`], the physical address of the memory for
/// [`Action::Allocate`] (zero if there is none), anything otherwise.
/// [`Action::Done`] and [`Action::Failed`] end the transaction.
#[derive(Clone, Copy, Debug, PartialEq, Eq, Structural)]
pub enum Action {
    /// Read the 32-bit register at `offset` in the register window.
    ReadReg { offset: u32 },
    /// Write `value` to the 32-bit register at `offset`.
    WriteReg { offset: u32, value: u32 },
    /// Read the 32-bit word at physical address `addr` of DMA memory.
    ReadMem { addr: u64 },
    /// Store `value` to the 32-bit word at physical address `addr`.
    WriteMem { addr: u64, value: u32 },
    /// Allocate `size` bytes of DMA memory aligned to `align` bytes.
    Allocate { size: u64, align: u32 },
    /// Make every earlier store visible to the device, and every store of
    /// the device visible to later loads.
    Barrier,
    /// Sleep for `ms` milliseconds, yielding the processor.
    Delay { ms: u64 },
    /// The transaction succeeded.
    Done,
    /// The transaction failed.
    Failed { error: AhciError },
}

impl Action {
    /// Whether the action ends a transaction.
    pub open spec fn spec_is_final(self) -> bool {
        self is Done || self is Failed
    }

    /// Whether the action ends a transaction.
    pub fn is_final(&self) -> (b: bool)
        ensures
            b == self.spec_is_final(),
    {
        match self {
            Action::Done => true,
            Action::Failed { .. } => true,
            _ => false,
        }
    }

    /// Whether performing the action changes a register or DMA memory.
    pub open spec fn spec_touches_hardware(self) -> bool {
        self is WriteReg || self is WriteMem
    }

    /// The outcome of the transaction that the action ends.
    pub open spec fn spec_outcome(self) -> Option<Result<(), AhciError>> {
        match self {
            Action::Done => Some(Ok(())),
            Action::Failed { error } => Some(Err(error)),
            _ => None,
        }
    }

    /// The outcome of the transaction, if the action ends it.
    pub fn outcome(&self) -> (r: Option<Result<(), AhciError>>)
        ensures
            r == self.spec_outcome(),
            r is Some <==> self.spec_is_final(),
    {
        match self {
            Action::Done => Some(Ok(())),
            Action::Failed { error } => Some(Err(*error)),
            _ => None,
        }
    }
}

/// How long the engine waits for the hardware: the pause between two
/// looks at a register, and how many pauses each wait may take.
#[derive(Clone, Copy, Debug, PartialEq, Eq, Structural)]
pub struct Timing {
    /// Milliseconds between two polls.
    pub poll_interval_ms: u64,
    /// Pauses granted to the firmware to hand the controller over.
    pub handoff_polls: u32,
    /// Pauses granted to the controller to leave its reset.
    pub reset_polls: u32,
    /// Pauses granted to a port to stop or start its engines.
    pub port_polls: u32,
    /// Pauses granted to a device to consume a command.
    pub command_polls: u32,
}

impl Timing {
    /// One millisecond between polls; two seconds for the handoff, one for
    /// the reset, half a second for a port, five seconds for a command.
    pub fn standard() -> (t: Timing)
        ensures
            t == (Timing {
                poll_interval_ms: 1,
                handoff_polls: 2000,
                reset_polls: 1000,
                port_polls: 500,
                command_polls: 5000,
            }),
    {
        Timing {
            poll_interval_ms: 1,
            handoff_polls: 2000,
            reset_polls: 1000,
            port_polls: 500,
            command_polls: 5000,
        }
    }
}

} // verus!
