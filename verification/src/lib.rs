//! A small arithmetic expression language: a whitespace-tolerant tokenizer,
//! a precedence-climbing parser that builds an abstract syntax tree, and the
//! exact helpers the evaluation of that tree needs.
pub mod parsemath;
