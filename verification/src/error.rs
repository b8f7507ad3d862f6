//! The failures the driver reports.

use vstd::prelude::*;

verus! {

/// Why a transaction of the driver failed.
#[derive(Clone, Copy, Debug, PartialEq, Eq, Structural)]
pub enum AhciError {
    /// The firmware did not hand the controller over within its window.
    HandoffTimeout,
    /// The controller did not leave its global reset within its window.
    ResetTimeout,
    /// A port did not stop or start in time, has no DMA memory, or is not
    /// in a state in which it takes the request.
    PortNotResponding,
    /// The request does not describe a transfer of 1 to 65535 whole blocks
    /// that the command can address.
    InvalidTransferSize,
    /// The device did not consume the command within the poll budget.
    CommandTimeout,
    /// The device raised an error; the task-file status and error bytes it
    /// reported are attached.
    DeviceError { status: u8, error: u8 },
}

/// The classes of failure that a block-device framework tells apart.
#[derive(Clone, Copy, Debug, PartialEq, Eq, Structural)]
pub enum FailureClass {
    /// The caller passed a request that can never be served.
    InvalidParam,
    /// The device is not in a state to serve requests.
    BadState,
    /// The hardware failed to carry the request out.
    Io,
}

impl AhciError {
    /// The class of this failure: a malformed request is the caller's
    /// fault, an unusable port is a bad state, everything that happened on
    /// the wire is an I/O failure.
    pub open spec fn spec_class(self) -> FailureClass {
        match self {
            AhciError::InvalidTransferSize => FailureClass::InvalidParam,
            AhciError::PortNotResponding => FailureClass::BadState,
            AhciError::HandoffTimeout => FailureClass::Io,
            AhciError::ResetTimeout => FailureClass::Io,
            AhciError::CommandTimeout => FailureClass::Io,
            AhciError::DeviceError { .. } => FailureClass::Io,
        }
    }

    /// Classifies the failure for the block-device framework.
    pub fn class(&self) -> (c: FailureClass)
        ensures
            c == self.spec_class(),
    {
        match self {
            AhciError::InvalidTransferSize => FailureClass::InvalidParam,
            AhciError::PortNotResponding => FailureClass::BadState,
            _ => FailureClass::Io,
        }
    }
}

} // verus!
