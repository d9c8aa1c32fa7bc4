//! Lexical analysis: tokens and the tokenizer.

pub mod token;
pub mod tokenizer;

pub use token::{SpecTokenKind, Token, TokenType};
pub use tokenizer::{LexError, Tokenizer};
