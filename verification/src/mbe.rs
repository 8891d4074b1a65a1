//! Macros by example: the patterns and templates of `macro_rules`.

pub mod puncts;
pub mod op;
pub mod parser;
pub mod reading;
pub mod expressions;
