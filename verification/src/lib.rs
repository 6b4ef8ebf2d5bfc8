//! A small Logo-style turtle-graphics interpreter.
//!
//! Source text is tokenized, parsed into an expression tree, and executed
//! against a turtle that accumulates an ordered stream of drawing commands.
//! All numeric work is done in a fixed-point model with four decimal digits
//! of resolution (see [`num`]).

pub mod ast;
pub mod error;
pub mod executor;
pub mod laws;
pub mod num;
pub mod parser;
pub mod roundtrip;
pub mod turtle;
pub mod tokens;
