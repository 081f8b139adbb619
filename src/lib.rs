//! Front end for a small assembly-like language: a lexer that turns source
//! text into tokens carrying their row and column, and a parser that pulls
//! those tokens one at a time and builds label declarations and instructions.
pub mod lexer;
pub mod parser;
pub mod text;
