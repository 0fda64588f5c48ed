//! A line-oriented assembler for a small fixed-width virtual machine.
//!
//! The pipeline has two stages: a parser that turns source text into a
//! sequence of typed instructions, and an encoder that packs each
//! instruction into one byte (two for `Mov`) using a strict
//! opcode/operand bit layout.

pub mod codegen;
pub mod text;
pub mod parser;
