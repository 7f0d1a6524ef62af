//! A small teaching virtual machine: an assembler from mnemonic text to a
//! numeric instruction stream, and a stack machine that runs that stream
//! over one memory shared by program and data, with line-addressed
//! secondary storage and a read-only debug inspector.
pub mod assembly;
pub mod inspect;
pub mod instruction;
pub mod semantics;
pub mod storage;
pub mod text;
pub mod vm;
