//! Assembler and virtual processor for a 32-bit ARM-like instruction set.
//!
//! The crate is organised leaves first:
//! - `isa`: opcodes, forms, condition codes, registers and the bytecode table;
//! - `codec`: the bit layout of an instruction word;
//! - `literal`, `lexer`, `parser`: from a source line to a validated form;
//! - `assembler`: label registry and the two-pass driver;
//! - `vm`: condition flags and the register machine.
pub mod assembler;
pub mod codec;
pub mod error;
pub mod flag;
pub mod isa;
pub mod lexer;
pub mod literal;
pub mod parser;
pub mod text;
pub mod vm;

pub use assembler::{get_bytecode, Assembler, LabelRegistry};
pub use codec::{EncoderDecoder, Instruction, Payload};
pub use error::Error;
pub use flag::Flag;
pub use lexer::{lexer, Label, Separator, Token};
pub use literal::Literal;
pub use parser::{run, StateMachine};
pub use isa::{reducer, ConditionCode, Form, Opcode, Register};
pub use vm::Processor;
