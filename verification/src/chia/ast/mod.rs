//! The syntax tree.

pub mod node;
