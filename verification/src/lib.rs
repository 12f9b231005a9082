//! Postfix arithmetic expressions: tokenizing raw input lines, evaluating
//! postfix token streams into expression trees with a parallel infix-string
//! stack, and ordering the results.

pub mod ast;
pub mod errors;
pub mod eval;
pub mod order;
pub mod pipeline;
mod text;
pub mod tokenizer;
