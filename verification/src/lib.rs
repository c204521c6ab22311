//! A small register machine and the assembler for its mnemonic language.
//!
//! Every instruction is four bytes wide: one opcode byte and three operand
//! bytes. [`instruction`] holds the table of opcodes. The machine in [`vm`]
//! executes such bytes; the assembler in [`assembler`] reads mnemonic source
//! text and encodes it into the same bytes. [`repl`] holds what an
//! interactive shell around the machine has to decide.

pub mod assembler;
pub mod instruction;
pub mod repl;
pub mod vm;
