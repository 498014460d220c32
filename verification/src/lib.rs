//! A tree-walking interpreter for a small, dynamically typed language
//! modeled on a JavaScript subset: a tokenizer, a recursive-descent
//! parser, and a runtime that evaluates statements against a mutable
//! environment.
//!
//! Numbers follow IEEE-754 binary64 semantics; the library represents
//! them by their bit pattern (`u64`), compares and negates them with
//! verified bit-level code, and delegates rounding arithmetic and
//! decimal conversion to `rustc_apfloat` behind trusted wrappers.

pub mod num;
pub mod token;
pub mod ast;
pub mod parser;
pub mod values;
pub mod runtime;
pub mod tokenizer;
pub mod scanner;
