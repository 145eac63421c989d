//! Frontend: tokens, lexer, syntax tree, grammar and parser.

pub mod ast;
pub mod grammar;
pub mod lexer;
pub mod parser;
pub mod token;
