//! The syntax tree and its lowering to the IR.
pub mod block;
pub mod calc;
pub mod lower;
pub mod shape;
pub mod structs;
pub mod vm;
