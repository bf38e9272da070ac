//! An interpreter core for the CHIP-8 virtual machine: instruction decoding,
//! the machine state, and a single-step executor whose every transition is
//! specified against an abstract machine model.
//!
//! Sprites are clipped at the right and bottom edges of the screen. The
//! legacy `0NNN` machine-code call is executed as a no-op. Writes to the
//! built-in glyph table, and every memory access outside memory, are faults.

pub mod chip8;
pub mod laws;
pub mod machine;
pub mod opcode;
mod rng;

pub use chip8::{Chip8, Cpu, LoadFault, StepMode};
pub use machine::{ExecutionFault, MachineView};
pub use opcode::{Addr, OpCode, RegId};
