//! From the IR to RISC-V assembly.
pub mod gen;
pub mod inst;
pub mod soundness;
pub mod text;
pub mod visitor;
