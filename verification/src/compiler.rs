//! The front end: tokens, the lexical grammar, the scanner that implements
//! it, and the theorems that hold of both.

pub mod compiler;
pub mod grammar;
pub mod laws;
pub mod lexer;
pub mod text;
pub mod token;
