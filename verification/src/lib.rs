//! A small compiler for a C-like language: the syntax tree is lowered to Koopa
//! IR, and the IR is turned into RISC-V assembly with a greedy register pool.
pub mod parser;
