//! A small ahead-of-time compiler front end and lowering pipeline: a
//! longest-match lexer, a Pratt-style parser, and a code generator that
//! lowers the syntax tree to a flat SSA instruction stream.

pub mod compiler;
pub mod format;
pub mod lexer;
pub mod parser;
