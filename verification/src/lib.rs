//! cocoa is a library for evaluating arithmetic expressions.
//!
//! It contains a lexer and a Pratt (precedence-climbing) parser. The lexer
//! turns a line of characters into lexemes; the parser turns tokens into a
//! postfix instruction program; a small stack machine reduces that program
//! to a single 64-bit value. Numbers travel through the library as the bit
//! patterns of their IEEE-754 values, so the whole pipeline is stated and
//! proved over integers; the caller that owns the floating-point hardware
//! performs the arithmetic steps the machine asks for.

pub mod laws;
pub mod lexer;
pub mod machine;
pub mod math;
pub mod numeric;
pub mod parser;
pub mod token;
