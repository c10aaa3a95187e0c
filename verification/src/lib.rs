//! A Core War virtual machine: a circular core of Redcode instructions, the
//! warriors that fight in it, and the engine that runs them one instruction
//! at a time.

pub mod compiler;
pub mod instruction;
pub mod virtual_machine;

pub use compiler::tokenizer::{tokenize_line, TokenizedLine};
pub use compiler::{parse_line, parse_program, Fault, ParseError};
pub use instruction::handlers;
pub use instruction::handlers::relative_address;
pub use instruction::{AddressMode, Instruction, Modifier, OpCode};
pub use virtual_machine::placement::Block;
pub use virtual_machine::{EngineError, MachineState, MatchSettings, VirtualMachine};
