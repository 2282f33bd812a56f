//! Code generation: blocks of output and the intermediate representation.
pub mod blocks;
pub mod targets;
