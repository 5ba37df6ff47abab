//! A small command-line calculator language: a lexer, a precedence-climbing
//! parser, and an evaluator with a persistent environment of user-defined
//! constants and single-argument functions.
//!
//! Numbers are IEEE-754 double-precision values carried as their bit patterns
//! (`u64`). The library never performs floating-point arithmetic itself:
//! evaluating a line yields a straight-line numeric program (`LinePlan`) whose
//! meaning is specified for every interpretation of the primitive operations,
//! and the host applies the machine's floating-point unit to it.

pub mod ast;
pub mod chars;
pub mod errors;
pub mod interpreter;
pub mod laws;
pub mod lexer;
pub mod parser;
pub mod program;
pub mod semantics;
pub mod strutil;
pub mod token;

