//! Front end for a small C/JS-like scripting language: a character-level
//! lexer producing positioned tokens, and a recursive-descent parser that
//! builds a span-annotated abstract syntax tree or reports a precise error.

pub mod error;
pub mod grammar;
pub mod laws;
pub mod lexing;
pub mod parser;
pub mod scanner;
pub mod utils;
