//! The scanner is the tokenizer under its older name.

pub use crate::tokenizer::Tokenizer as Scanner;
