//! The visitors that serialize a program: an XML emitter for debugging
//! and tooling, and a NASM emitter that lowers the IR to x86-64 assembly
//! text.

pub mod nasm;
pub mod xml;
