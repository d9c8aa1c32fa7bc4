//! Parsing: the abstract syntax tree and the recursive-descent parser.

pub mod ast;
pub mod parse;

pub use ast::{BinaryOperator, Expr, Program, SpecExpr, SpecStmt, Statement};
pub use parse::{ParseError, ParseResult, Parser};
