//! A compiler back-end for SLASM, a stack-oriented, typed intermediate
//! representation for imperative programs.
//!
//! A client builds a [`program::Program`] bottom-up (blocks, then functions,
//! then the program) and hands it to one of the emitters: the XML emitter
//! serializes the IR for debugging and tooling, and the NASM emitter lowers
//! it to x86-64 assembly text using a stack-based calling convention.

pub mod basic_block;
pub mod error;
pub mod function;
pub mod instruction;
pub mod names;
pub mod program;
pub mod sums;
pub mod text;
pub mod visitors;
pub mod word;
