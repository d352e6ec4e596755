//! A tree-walking interpreter for a small dynamically typed language:
//! a scanner, a recursive-descent parser, a chain of scopes and an evaluator,
//! each with its behaviour stated as a contract.
//!
//! Numbers are IEEE 754 doubles held by their bit patterns. Ordering, equality
//! and negation are decided here on the bits; decoding a literal, the four
//! arithmetic operations and printing a number are asked of the caller, who
//! hands in a function for each.

pub mod text;
pub mod number;
pub mod token_type;
pub mod token;
pub mod error;
pub mod expr;
pub mod stmt;
pub mod environment;
pub mod semantics;
pub mod interpreter;
pub mod determinism;
pub mod scanner;
pub mod grammar;
pub mod spelling;
pub mod parser;
pub mod lox;
pub mod ast_printer;
pub mod generate_ast;
