//! A compiler for the `circuit` hardware description language: tokeniser,
//! parser, semantic analysis helpers, optimiser and IR code generation, with
//! the behaviour of each stage stated as Verus contracts.
pub mod util;
pub mod ansi;
pub mod diagnostics;
pub mod tokeniser;
pub mod ast;
pub mod parser;
pub mod codegen;
pub mod extlib;
pub mod analyser;
pub mod optimiser;
pub mod corelib;
pub mod linemap;
