//! A small register-based virtual machine: a closed instruction set, a binary
//! codec for it, a line-oriented assembly notation, and an interpreter that
//! executes one instruction per step.

pub mod assembler;
pub mod codec;
pub mod instruction;
pub mod register;
pub mod utils;
pub mod vm;
