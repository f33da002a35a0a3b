//! A query language for structured documents: a parser for jq-like
//! expressions and an evaluator that applies them to an in-memory value
//! tree, with contracts that pin down the behavior of both. The value
//! model, the numeric tower, the canonical encoding, the operator
//! library and the laws that tie them together are all verified.

pub mod num;
pub mod value;
pub mod ast;
pub mod canon;
pub mod errors;
pub mod semantics;
pub mod operators;
pub mod evaluator;
pub mod parser;
pub mod grammar;
pub mod laws;
