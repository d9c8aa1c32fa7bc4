//! Token kinds and positioned tokens of the Grit language, together with
//! their mathematical views.

use vstd::prelude::*;

verus! {

/// The different kinds of tokens in the Grit language.
#[derive(Debug, PartialEq)]
pub enum TokenType {
    // Literals
    Integer(i64),
    /// A float literal, kept as its normalized decimal text
    /// (no leading zeros, no trailing fractional zeros, no trailing dot).
    Float(String),
    String(String),
    Identifier(String),

    // Operators
    Plus,
    Minus,
    Multiply,
    Divide,
    Equals,

    // Comparison operators
    EqualEqual,
    NotEqual,
    LessThan,
    LessThanOrEqual,
    GreaterThan,
    GreaterThanOrEqual,

    // Delimiters
    LeftParen,
    RightParen,
    LeftBrace,
    RightBrace,
    Comma,
    Newline,
    Dot,

    // Keywords
    Fn,
    If,
    Elif,
    Else,
    While,
    Class,
    Self_,

    // Special
    Eof,
}

/// The mathematical counterpart of `TokenType`: text is a sequence of
/// characters rather than a `String`.
pub ghost enum SpecTokenKind {
    Integer(i64),
    Float(Seq<char>),
    Text(Seq<char>),
    Ident(Seq<char>),
    Plus,
    Minus,
    Multiply,
    Divide,
    Equals,
    EqualEqual,
    NotEqual,
    LessThan,
    LessThanOrEqual,
    GreaterThan,
    GreaterThanOrEqual,
    LeftParen,
    RightParen,
    LeftBrace,
    RightBrace,
    Comma,
    Newline,
    Dot,
    KwFn,
    KwIf,
    KwElif,
    KwElse,
    KwWhile,
    KwClass,
    KwSelf,
    Eof,
}

impl View for TokenType {
    type V = SpecTokenKind;

    open spec fn view(&self) -> SpecTokenKind {
        match self {
            TokenType::Integer(n) => SpecTokenKind::Integer(*n),
            TokenType::Float(s) => SpecTokenKind::Float(s@),
            TokenType::String(s) => SpecTokenKind::Text(s@),
            TokenType::Identifier(s) => SpecTokenKind::Ident(s@),
            TokenType::Plus => SpecTokenKind::Plus,
            TokenType::Minus => SpecTokenKind::Minus,
            TokenType::Multiply => SpecTokenKind::Multiply,
            TokenType::Divide => SpecTokenKind::Divide,
            TokenType::Equals => SpecTokenKind::Equals,
            TokenType::EqualEqual => SpecTokenKind::EqualEqual,
            TokenType::NotEqual => SpecTokenKind::NotEqual,
            TokenType::LessThan => SpecTokenKind::LessThan,
            TokenType::LessThanOrEqual => SpecTokenKind::LessThanOrEqual,
            TokenType::GreaterThan => SpecTokenKind::GreaterThan,
            TokenType::GreaterThanOrEqual => SpecTokenKind::GreaterThanOrEqual,
            TokenType::LeftParen => SpecTokenKind::LeftParen,
            TokenType::RightParen => SpecTokenKind::RightParen,
            TokenType::LeftBrace => SpecTokenKind::LeftBrace,
            TokenType::RightBrace => SpecTokenKind::RightBrace,
            TokenType::Comma => SpecTokenKind::Comma,
            TokenType::Newline => SpecTokenKind::Newline,
            TokenType::Dot => SpecTokenKind::Dot,
            TokenType::Fn => SpecTokenKind::KwFn,
            TokenType::If => SpecTokenKind::KwIf,
            TokenType::Elif => SpecTokenKind::KwElif,
            TokenType::Else => SpecTokenKind::KwElse,
            TokenType::While => SpecTokenKind::KwWhile,
            TokenType::Class => SpecTokenKind::KwClass,
            TokenType::Self_ => SpecTokenKind::KwSelf,
            TokenType::Eof => SpecTokenKind::Eof,
        }
    }
}

/// A token with its kind and its 1-based position in the source text.
#[derive(Debug, PartialEq)]
pub struct Token {
    pub token_type: TokenType,
    pub line: usize,
    pub column: usize,
}

/// The mathematical counterpart of `Token`.
pub ghost struct SpecToken {
    pub kind: SpecTokenKind,
    pub line: int,
    pub column: int,
}

impl View for Token {
    type V = SpecToken;

    open spec fn view(&self) -> SpecToken {
        SpecToken { kind: self.token_type@, line: self.line as int, column: self.column as int }
    }
}

impl Clone for TokenType {
    /// Clones the token kind; the clone equals the original.
    fn clone(&self) -> (res: Self)
        ensures
            res == *self,
    {
        match self {
            TokenType::Integer(n) => TokenType::Integer(*n),
            TokenType::Float(s) => TokenType::Float(s.clone()),
            TokenType::String(s) => TokenType::String(s.clone()),
            TokenType::Identifier(s) => TokenType::Identifier(s.clone()),
            TokenType::Plus => TokenType::Plus,
            TokenType::Minus => TokenType::Minus,
            TokenType::Multiply => TokenType::Multiply,
            TokenType::Divide => TokenType::Divide,
            TokenType::Equals => TokenType::Equals,
            TokenType::EqualEqual => TokenType::EqualEqual,
            TokenType::NotEqual => TokenType::NotEqual,
            TokenType::LessThan => TokenType::LessThan,
            TokenType::LessThanOrEqual => TokenType::LessThanOrEqual,
            TokenType::GreaterThan => TokenType::GreaterThan,
            TokenType::GreaterThanOrEqual => TokenType::GreaterThanOrEqual,
            TokenType::LeftParen => TokenType::LeftParen,
            TokenType::RightParen => TokenType::RightParen,
            TokenType::LeftBrace => TokenType::LeftBrace,
            TokenType::RightBrace => TokenType::RightBrace,
            TokenType::Comma => TokenType::Comma,
            TokenType::Newline => TokenType::Newline,
            TokenType::Dot => TokenType::Dot,
            TokenType::Fn => TokenType::Fn,
            TokenType::If => TokenType::If,
            TokenType::Elif => TokenType::Elif,
            TokenType::Else => TokenType::Else,
            TokenType::While => TokenType::While,
            TokenType::Class => TokenType::Class,
            TokenType::Self_ => TokenType::Self_,
            TokenType::Eof => TokenType::Eof,
        }
    }
}

impl Clone for Token {
    /// Clones the token; the clone equals the original.
    fn clone(&self) -> (res: Self)
        ensures
            res == *self,
    {
        Token { token_type: self.token_type.clone(), line: self.line, column: self.column }
    }
}

/// The views of a sequence of tokens, in order.
pub open spec fn tokens_view(ts: Seq<Token>) -> Seq<SpecToken> {
    ts.map_values(|t: Token| t@)
}

impl Token {
    /// Creates a new token.
    pub fn new(token_type: TokenType, line: usize, column: usize) -> (t: Token)
        ensures
            t@.kind == token_type@,
            t@.line == line as int,
            t@.column == column as int,
            t.token_type == token_type,
            t.line == line,
            t.column == column,
    {
        Token { token_type, line, column }
    }
}

} // verus!
