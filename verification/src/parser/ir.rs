//! The intermediate representation and the boundary to the `koopa` crate.
pub mod ops;
pub mod program;
