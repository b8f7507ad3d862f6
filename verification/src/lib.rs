//! A driver engine for AHCI SATA host adapters.
//!
//! The engine never touches hardware itself. Every operation is a
//! transaction: the engine names one [`Action`] at a time (a register
//! access, a store to DMA memory, a delay), the platform performs it and
//! hands the outcome back through `resume`, until the engine reports that
//! the transaction is done or has failed. What the engine decides in each
//! state is stated as a transition function and proved of the code.
//!
//! From the bottom up: [`regs`] maps the registers; [`fis`], [`prdt`] and
//! [`command`] lay out frames, descriptors and commands; [`port`] is the
//! state machine of one port, [`hba`] that of the controller, [`driver`]
//! the block device on top. [`sim`] and [`image`] model the device side.
//! [`laws`] and [`budget`] hold what is proved of the whole.

pub mod action;
pub mod budget;
pub mod command;
pub mod driver;
pub mod error;
pub mod fis;
pub mod hba;
pub mod image;
pub mod laws;
pub mod memory;
pub mod port;
pub mod prdt;
pub mod regs;
pub mod sim;

pub use action::Action;
pub use action::Timing;
pub use driver::AhciDriver;
pub use driver::DeviceType;
pub use error::AhciError;
pub use error::FailureClass;
