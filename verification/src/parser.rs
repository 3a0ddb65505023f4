//! The stages of the compiler behind the grammar.
pub mod ast;
pub mod constant;
pub mod error;
pub mod ir;
pub mod riscv;
