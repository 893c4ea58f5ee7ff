//! Polling driver for an SD host controller, with the register traffic it
//! causes stated as contracts.

pub mod bus;
pub mod regs;
pub mod status;
pub mod session;
pub mod command;
pub mod power;
pub mod transfer;
pub mod bringup;
pub mod vfs;
pub mod uart;
pub mod hexdump;
pub mod registry;
