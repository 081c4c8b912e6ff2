//! The expression pipeline: token vocabulary, tokenizer, parser, and AST.
pub mod ast;
pub mod parser;
pub mod token;
pub mod tokenizer;
