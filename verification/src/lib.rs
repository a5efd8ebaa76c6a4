//! Front end for a small C-like scripting language: a character-level
//! tokenizer and a Pratt (operator-precedence) parser that builds an
//! abstract syntax tree, accumulating diagnostics instead of aborting
//! on the first malformed construct.

pub mod ast;
pub mod lexer;
pub mod num;
pub mod parser;
pub mod text;
pub mod token;
