//! Targets of code generation.
pub mod ir;
