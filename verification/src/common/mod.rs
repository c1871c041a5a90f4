//! Values shared by the tokenizer and the parser.

pub mod position;
pub mod reserved;
pub mod text;
pub mod token;
