//! A front end and code generator for a small stack language.
//!
//! Numbers are written in unary, four operators combine the two most recent
//! values, and two statements print either a literal text or every value that
//! is still live. The crate holds the three stages of the pipeline: the lexer,
//! the parser with its operand stack, and the code generator with its list of
//! live values.

pub mod backend;
pub mod codegen;
pub mod lexer;
pub mod parser;
pub mod tokens;
