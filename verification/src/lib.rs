//! A single-pass bytecode interpreter for a small dynamically typed scripting
//! language: a scanner, a Pratt compiler that emits bytecode while it parses,
//! and a stack machine that executes the bytecode against an operand stack, a
//! table of globals and a heap of strings.
//!
//! Numbers are IEEE-754 binary64 values carried as their bit patterns. The
//! library compares and negates them itself; rounding arithmetic, parsing and
//! printing of numbers are left to the host, which the machine asks through
//! [`vm::Request`] and which answers with a [`vm::Reply`].

pub mod value;
pub mod text;
pub mod chunk;
pub mod object;
pub mod globals;
pub mod scanner;
pub mod parsing;
pub mod progress;
pub mod compile;
pub mod vm;
