//! A verified CHIP-8 virtual machine: an opcode codec for the 35-instruction
//! ISA and an interpreter that owns the machine state (memory, registers,
//! stack, timers, input, framebuffer) and executes one instruction per step.

pub mod emulator;
pub mod opcode;

pub use emulator::Emulator;
pub use opcode::Opcode;
