//! Lexical scanner for a small procedural scripting language.
//!
//! The scanner turns source text, given line by line, into a stream of
//! classified tokens, each tagged with the line on which it stands. It keeps
//! no more of the source than the line it reads and the lines given ahead.
//!
//! Every executable function carries a contract over a mathematical model of
//! the source: one sequence of characters in which each line is followed by a
//! newline. The grammar is stated over that model in [`compiler::grammar`],
//! the scanner in [`compiler::lexer`] is proved to implement it, and
//! [`compiler::laws`] holds what follows for every source.

pub mod compiler;
