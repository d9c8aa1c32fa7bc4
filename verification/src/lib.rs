//! A small source-to-source translator for the Grit scripting language:
//! a tokenizer, a recursive-descent parser with precedence climbing, and
//! a code generator that emits Rust source text.

pub mod codegen;
pub mod lexer;
pub mod parser;
pub mod text;

pub use lexer::{Token, TokenType};
