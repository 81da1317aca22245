//! Assembler for a 16-bit instruction-set computer.
//!
//! The crate translates symbolic assembly text into 16-character binary
//! machine words: a scanner turns characters into tokens, a parser builds
//! instruction records, and two passes over the instruction sequence resolve
//! symbols and emit the binary image.

pub mod assembler;
pub mod laws;
pub mod lexer;
pub mod parser;
pub mod scan;
pub mod symbols;
pub mod translate;
