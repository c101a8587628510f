//! The analysis half of the pipeline: lexing and flat grouping.

pub mod lexer;
pub mod parser;
