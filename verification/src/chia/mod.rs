//! The language itself: its reserved tokens, its tokenizer, its syntax tree
//! and its parser.

pub mod ast;
pub mod lang;
pub mod lexer;
pub mod parser;
