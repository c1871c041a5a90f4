//! Front end of the Chia compiler: a tokenizer and a recursive-descent parser
//! for a small C-like language, with their behaviour stated as contracts.

pub mod chia;
pub mod common;
