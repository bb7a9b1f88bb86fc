//! A Reverse Polish Notation calculator: a stack of numerals, a small store
//! of named values, and an evaluator that runs whitespace-separated tokens
//! against them.

pub mod numeral;
pub mod tokens;
pub mod model;
pub mod parser;
pub mod laws;

pub use model::EvalError;
pub use parser::RPNParser;
