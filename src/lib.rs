//! A simulator and assembler for a small machine with 16-bit instruction words.
pub mod assembler;
pub mod codec;
pub mod laws;
pub mod machine;

pub use codec::{Anti80EncodeError, Anti80Insn, Anti80Opcode, Anti80Reg, Anti80SkipCond};
pub use machine::{Anti80, Anti80Fault};
