//! The query language: its grammar, and the typed pipelines that queries become.

pub mod analyze;
pub mod ast;
pub mod command;
pub mod error;
pub mod expression;
pub mod floats;
pub mod fold;
pub mod grammar;
pub mod ir;
pub mod lexer;
pub mod literal;
pub mod meaning;
pub mod parser;
pub mod pipeline;
pub mod rendering;
pub mod span;
pub mod time;
pub mod validate;
pub mod writing;
