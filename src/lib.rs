//! Loader and tape machine for a byte-tape language of eight one-character
//! operations: `> < + - . , [ ]`.
//!
//! [`BfProgram`] turns source text into positioned instructions and pairs up
//! its loops; `VirtualMachine` runs such a program against a tape of cells,
//! one instruction at a time.

pub mod ops;
pub mod program;
pub mod vm_error;
pub mod cellkind;
pub mod vm;

pub use ops::Operation;
pub use program::{BfProgram, InstructionInfo};
pub use vm_error::VirtualMachineError;
pub use cellkind::CellKind;
pub use vm::{Status, VirtualMachine};
