//! The recursive-descent parser for the Grit language, with precedence
//! climbing for binary expressions.

use vstd::prelude::*;
use vstd::string::StringExecFns;
use crate::lexer::{Token, TokenType};
use crate::text::{push_usize_text, spec_nat_text};
use super::ast::{
    elifs_view, exprs_view, lemma_elifs_view, lemma_exprs_view, lemma_stmts_view, params_view,
    spec_precedence, stmts_view, BinaryOperator, Expr, Program, SpecExpr, SpecStmt, Statement,
};

verus! {

/// Parser errors.
#[derive(Debug, PartialEq)]
pub enum ParseError {
    UnexpectedToken { expected: String, found: Token },
    UnexpectedEof { expected: String },
    InvalidExpression { token: Token },
}

impl Clone for ParseError {
    /// Clones the error; the clone equals the original.
    fn clone(&self) -> (res: Self)
        ensures
            res == *self,
    {
        match self {
            ParseError::UnexpectedToken { expected, found } => ParseError::UnexpectedToken {
                expected: expected.clone(),
                found: found.clone(),
            },
            ParseError::UnexpectedEof { expected } => ParseError::UnexpectedEof {
                expected: expected.clone(),
            },
            ParseError::InvalidExpression { token } => ParseError::InvalidExpression {
                token: token.clone(),
            },
        }
    }
}

pub type ParseResult<T> = Result<T, ParseError>;

/// Whether the cursor stands at the end of the token sequence: past the
/// last token, or on the EOF token.
pub open spec fn spec_at_end(ts: Seq<Token>, pos: int) -> bool {
    pos >= ts.len() || ts[pos].token_type is Eof
}

/// The first position at or after `pos` that does not hold a newline token.
pub open spec fn spec_skip_newlines(ts: Seq<Token>, pos: int) -> int
    decreases ts.len() - pos,
{
    if 0 <= pos < ts.len() && ts[pos].token_type is Newline {
        spec_skip_newlines(ts, pos + 1)
    } else {
        pos
    }
}

/// The binary operator that a token stands for, if any.
pub open spec fn spec_token_to_operator(t: TokenType) -> Option<BinaryOperator> {
    match t {
        TokenType::Plus => Some(BinaryOperator::Add),
        TokenType::Minus => Some(BinaryOperator::Subtract),
        TokenType::Multiply => Some(BinaryOperator::Multiply),
        TokenType::Divide => Some(BinaryOperator::Divide),
        TokenType::EqualEqual => Some(BinaryOperator::EqualEqual),
        TokenType::NotEqual => Some(BinaryOperator::NotEqual),
        TokenType::LessThan => Some(BinaryOperator::LessThan),
        TokenType::LessThanOrEqual => Some(BinaryOperator::LessThanOrEqual),
        TokenType::GreaterThan => Some(BinaryOperator::GreaterThan),
        TokenType::GreaterThanOrEqual => Some(BinaryOperator::GreaterThanOrEqual),
        _ => None,
    }
}


/// The mathematical counterpart of `ParseError`: descriptions are
/// character sequences.
pub ghost enum SpecParseError {
    UnexpectedToken { expected: Seq<char>, found: Token },
    UnexpectedEof { expected: Seq<char> },
    InvalidExpression { token: Token },
}

impl View for ParseError {
    type V = SpecParseError;

    open spec fn view(&self) -> SpecParseError {
        match self {
            ParseError::UnexpectedToken { expected, found } => SpecParseError::UnexpectedToken {
                expected: expected@,
                found: *found,
            },
            ParseError::UnexpectedEof { expected } => SpecParseError::UnexpectedEof {
                expected: expected@,
            },
            ParseError::InvalidExpression { token } => SpecParseError::InvalidExpression {
                token: *token,
            },
        }
    }
}

/// Whether a token can start a primary expression.
pub open spec fn spec_primary_start(t: TokenType) -> bool {
    ||| t is Integer
    ||| t is Float
    ||| t is String
    ||| t is Self_
    ||| t is Identifier
    ||| t is LeftParen
}

/// What parsing a primary expression yields from cursor position `i`:
/// `None` when the step bound `fuel` ran out (never at the fuel the
/// functions' contracts use), otherwise the parsed expression and the
/// new cursor position, or the parse error.
pub open spec fn spec_parse_primary(ts: Seq<Token>, i: int, fuel: nat) -> Option<
    Result<(SpecExpr, int), SpecParseError>,
>
    decreases fuel,
{
    if fuel == 0 {
        None
    } else if i < 0 || i >= ts.len() {
        Some(Err(SpecParseError::UnexpectedEof { expected: "expression"@ }))
    } else {
        match ts[i].token_type {
            TokenType::Integer(n) => Some(Ok((SpecExpr::Integer(n), i + 1))),
            TokenType::Float(t) => Some(Ok((SpecExpr::Float(t@), i + 1))),
            TokenType::String(t) => Some(Ok((SpecExpr::StrLit(t@), i + 1))),
            TokenType::Self_ => Some(Ok((SpecExpr::Ident("self"@), i + 1))),
            TokenType::Identifier(name) => {
                if i + 1 < ts.len() && ts[i + 1].token_type is LeftParen {
                    match spec_parse_args(ts, i + 2, (fuel - 1) as nat) {
                        None => None,
                        Some(Err(e)) => Some(Err(e)),
                        Some(Ok((args, j))) => Some(Ok((SpecExpr::Call { name: name@, args }, j))),
                    }
                } else {
                    Some(Ok((SpecExpr::Ident(name@), i + 1)))
                }
            },
            TokenType::LeftParen => {
                match spec_parse_expression(ts, i + 1, 0, (fuel - 1) as nat) {
                    None => None,
                    Some(Err(e)) => Some(Err(e)),
                    Some(Ok((inner, j))) => {
                        if j >= ts.len() || ts[j].token_type is Eof {
                            Some(Err(SpecParseError::UnexpectedEof { expected: "')'"@ }))
                        } else if ts[j].token_type is RightParen {
                            Some(Ok((SpecExpr::Grouped(Box::new(inner)), j + 1)))
                        } else {
                            Some(
                                Err(
                                    SpecParseError::UnexpectedToken {
                                        expected: "')'"@,
                                        found: ts[j],
                                    },
                                ),
                            )
                        }
                    },
                }
            },
            _ => Some(Err(SpecParseError::InvalidExpression { token: ts[i] })),
        }
    }
}

/// What parsing a parenthesized argument list yields; the cursor stands
/// just past the opening parenthesis and ends just past the closing one.
pub open spec fn spec_parse_args(ts: Seq<Token>, i: int, fuel: nat) -> Option<
    Result<(Seq<SpecExpr>, int), SpecParseError>,
>
    decreases fuel,
{
    if fuel == 0 {
        None
    } else if 0 <= i < ts.len() && !(ts[i].token_type is RightParen) {
        spec_args_loop(ts, i, Seq::empty(), (fuel - 1) as nat)
    } else if 0 <= i < ts.len() {
        Some(Ok((Seq::empty(), i + 1)))
    } else {
        Some(Err(SpecParseError::UnexpectedEof { expected: "')'"@ }))
    }
}

/// One or more comma-separated arguments, ending just past the closing
/// parenthesis.
pub open spec fn spec_args_loop(ts: Seq<Token>, i: int, acc: Seq<SpecExpr>, fuel: nat) -> Option<
    Result<(Seq<SpecExpr>, int), SpecParseError>,
>
    decreases fuel,
{
    if fuel == 0 {
        None
    } else {
        match spec_parse_expression(ts, i, 0, (fuel - 1) as nat) {
            None => None,
            Some(Err(e)) => Some(Err(e)),
            Some(Ok((e, j))) => {
                let acc2 = acc.push(e);
                if j >= ts.len() || ts[j].token_type is Eof {
                    Some(Err(SpecParseError::UnexpectedEof { expected: "')'"@ }))
                } else if ts[j].token_type is Comma {
                    spec_args_loop(ts, j + 1, acc2, (fuel - 1) as nat)
                } else if ts[j].token_type is RightParen {
                    Some(Ok((acc2, j + 1)))
                } else {
                    Some(
                        Err(
                            SpecParseError::UnexpectedToken {
                                expected: "',' or ')'"@,
                                found: ts[j],
                            },
                        ),
                    )
                }
            },
        }
    }
}

/// What parsing an expression yields: a primary expression extended by
/// precedence climbing.
pub open spec fn spec_parse_expression(ts: Seq<Token>, i: int, min_prec: int, fuel: nat) -> Option<
    Result<(SpecExpr, int), SpecParseError>,
>
    decreases fuel,
{
    if fuel == 0 {
        None
    } else {
        match spec_parse_primary(ts, i, (fuel - 1) as nat) {
            None => None,
            Some(Err(e)) => Some(Err(e)),
            Some(Ok((left, j))) => spec_climb(ts, j, left, min_prec, (fuel - 1) as nat),
        }
    }
}

/// The precedence-climbing loop: folds in dot postfixes and binary
/// operators of at least the minimum precedence, same-precedence chains
/// folding to the left.
pub open spec fn spec_climb(ts: Seq<Token>, i: int, left: SpecExpr, min_prec: int, fuel: nat)
    -> Option<Result<(SpecExpr, int), SpecParseError>>
    decreases fuel,
{
    if fuel == 0 {
        None
    } else if i < 0 || i >= ts.len() {
        Some(Ok((left, i)))
    } else if ts[i].token_type is Eof || ts[i].token_type is Newline || ts[i].token_type is Comma
        || ts[i].token_type is RightParen {
        Some(Ok((left, i)))
    } else if ts[i].token_type is Dot {
        if i + 1 >= ts.len() {
            Some(Err(SpecParseError::UnexpectedEof { expected: "field or method name"@ }))
        } else {
            match ts[i + 1].token_type {
                TokenType::Identifier(name) => {
                    if i + 2 < ts.len() && ts[i + 2].token_type is LeftParen {
                        match spec_parse_args(ts, i + 3, (fuel - 1) as nat) {
                            None => None,
                            Some(Err(e)) => Some(Err(e)),
                            Some(Ok((args, j))) => spec_climb(
                                ts,
                                j,
                                SpecExpr::Method { object: Box::new(left), method: name@, args },
                                min_prec,
                                (fuel - 1) as nat,
                            ),
                        }
                    } else {
                        spec_climb(
                            ts,
                            i + 2,
                            SpecExpr::Method {
                                object: Box::new(left),
                                method: name@,
                                args: Seq::empty(),
                            },
                            min_prec,
                            (fuel - 1) as nat,
                        )
                    }
                },
                _ => Some(
                    Err(
                        SpecParseError::UnexpectedToken {
                            expected: "field or method name"@,
                            found: ts[i + 1],
                        },
                    ),
                ),
            }
        }
    } else {
        match spec_token_to_operator(ts[i].token_type) {
            None => Some(Ok((left, i))),
            Some(op) => {
                if spec_precedence(op) < min_prec {
                    Some(Ok((left, i)))
                } else {
                    match spec_parse_expression(
                        ts,
                        i + 1,
                        spec_precedence(op) + 1,
                        (fuel - 1) as nat,
                    ) {
                        None => None,
                        Some(Err(e)) => Some(Err(e)),
                        Some(Ok((right, j))) => spec_climb(
                            ts,
                            j,
                            SpecExpr::Binary { left: Box::new(left), op, right: Box::new(right) },
                            min_prec,
                            (fuel - 1) as nat,
                        ),
                    }
                }
            },
        }
    }
}

/// The fuel that suffices for the spec parsing functions from position
/// `i`: each parsing step consumes at most eight tokens' worth of fuel,
/// and `rank` orders the functions that can call one another at the same
/// position.
pub open spec fn pfuel(ts: Seq<Token>, i: int, rank: int) -> int {
    8 * (ts.len() - i) + rank + 1
}

/// The spec-level outcome that an executable expression-parsing result
/// stands for: the expression's view and the final cursor position, or
/// the error's view.
pub open spec fn spec_expr_outcome(r: ParseResult<Expr>, pos: int) -> Option<
    Result<(SpecExpr, int), SpecParseError>,
> {
    Some(
        match r {
            Ok(e) => Ok((e@, pos)),
            Err(pe) => Err(pe@),
        },
    )
}

/// The spec-level outcome that an executable argument-list result stands
/// for.
pub open spec fn spec_args_outcome(r: ParseResult<Vec<Expr>>, pos: int) -> Option<
    Result<(Seq<SpecExpr>, int), SpecParseError>,
> {
    Some(
        match r {
            Ok(v) => Ok((exprs_view(v@), pos)),
            Err(pe) => Err(pe@),
        },
    )
}


/// The cursor position after one optional newline token.
pub open spec fn opt_newline(ts: Seq<Token>, j: int) -> int {
    if 0 <= j < ts.len() && ts[j].token_type is Newline {
        j + 1
    } else {
        j
    }
}

/// What parsing a class definition yields; the cursor stands on the
/// `class` keyword.
pub open spec fn spec_parse_class_def(ts: Seq<Token>, i: int) -> Result<
    (SpecStmt, int),
    SpecParseError,
> {
    if i + 1 >= ts.len() {
        Err(SpecParseError::UnexpectedEof { expected: "class name"@ })
    } else {
        match ts[i + 1].token_type {
            TokenType::Identifier(name) => Ok(
                (SpecStmt::ClassDef { name: name@ }, opt_newline(ts, i + 2)),
            ),
            _ => Err(
                SpecParseError::UnexpectedToken { expected: "class name"@, found: ts[i + 1] },
            ),
        }
    }
}

/// What parsing a parameter list yields, one parameter per loop step;
/// the cursor stands on the first parameter (or the closing parenthesis)
/// and ends just past the closing parenthesis.
pub open spec fn spec_params_loop(ts: Seq<Token>, i: int, acc: Seq<Seq<char>>, fuel: nat)
    -> Option<Result<(Seq<Seq<char>>, int), SpecParseError>>
    decreases fuel,
{
    if fuel == 0 {
        None
    } else {
        let j = spec_skip_newlines(ts, i);
        if j >= ts.len() {
            Some(Err(SpecParseError::UnexpectedEof { expected: "')' or parameter name"@ }))
        } else if ts[j].token_type is RightParen {
            Some(Ok((acc, j + 1)))
        } else {
            match ts[j].token_type {
                TokenType::Identifier(pname) => {
                    let k = spec_skip_newlines(ts, j + 1);
                    if k >= ts.len() {
                        Some(Err(SpecParseError::UnexpectedEof { expected: "',' or ')'"@ }))
                    } else if ts[k].token_type is Comma {
                        spec_params_loop(ts, k + 1, acc.push(pname@), (fuel - 1) as nat)
                    } else if ts[k].token_type is RightParen {
                        Some(Ok((acc.push(pname@), k + 1)))
                    } else {
                        Some(
                            Err(
                                SpecParseError::UnexpectedToken {
                                    expected: "',' or ')'"@,
                                    found: ts[k],
                                },
                            ),
                        )
                    }
                },
                _ => Some(
                    Err(
                        SpecParseError::UnexpectedToken {
                            expected: "parameter name"@,
                            found: ts[j],
                        },
                    ),
                ),
            }
        }
    }
}

/// What parsing a brace-delimited statement block yields; the cursor
/// stands on the opening brace and ends just past the closing one.
pub open spec fn spec_parse_block(ts: Seq<Token>, i: int, fuel: nat) -> Option<
    Result<(Seq<SpecStmt>, int), SpecParseError>,
>
    decreases fuel,
{
    if fuel == 0 {
        None
    } else if i >= ts.len() {
        Some(Err(SpecParseError::UnexpectedEof { expected: "'{'"@ }))
    } else if !(ts[i].token_type is LeftBrace) {
        Some(Err(SpecParseError::UnexpectedToken { expected: "'{'"@, found: ts[i] }))
    } else {
        spec_block_loop(ts, spec_skip_newlines(ts, i + 1), Seq::empty(), (fuel - 1) as nat)
    }
}

/// The statements of a block, one per loop step, with newlines skipped
/// in between.
pub open spec fn spec_block_loop(ts: Seq<Token>, i: int, acc: Seq<SpecStmt>, fuel: nat) -> Option<
    Result<(Seq<SpecStmt>, int), SpecParseError>,
>
    decreases fuel,
{
    if fuel == 0 {
        None
    } else if i >= ts.len() {
        Some(Err(SpecParseError::UnexpectedEof { expected: "'}'"@ }))
    } else if ts[i].token_type is RightBrace {
        Some(Ok((acc, i + 1)))
    } else {
        match spec_parse_statement(ts, i, (fuel - 1) as nat) {
            None => None,
            Some(Err(e)) => Some(Err(e)),
            Some(Ok((st, j))) => spec_block_loop(
                ts,
                spec_skip_newlines(ts, j),
                acc.push(st),
                (fuel - 1) as nat,
            ),
        }
    }
}

/// What parsing a function body yields: a block followed by one optional
/// newline.
pub open spec fn spec_parse_body(ts: Seq<Token>, i: int, fuel: nat) -> Option<
    Result<(Seq<SpecStmt>, int), SpecParseError>,
>
    decreases fuel,
{
    if fuel == 0 {
        None
    } else {
        match spec_parse_block(ts, i, (fuel - 1) as nat) {
            None => None,
            Some(Err(e)) => Some(Err(e)),
            Some(Ok((body, j))) => Some(Ok((body, opt_newline(ts, j)))),
        }
    }
}

/// What parsing an optional parameter list followed by a function body
/// yields.
pub open spec fn spec_params_body(ts: Seq<Token>, i: int, fuel: nat) -> Option<
    Result<((Seq<Seq<char>>, Seq<SpecStmt>), int), SpecParseError>,
>
    decreases fuel,
{
    if fuel == 0 {
        None
    } else if i >= ts.len() {
        Some(Err(SpecParseError::UnexpectedEof { expected: "'('"@ }))
    } else if !(ts[i].token_type is LeftParen) {
        match spec_parse_body(ts, spec_skip_newlines(ts, i), (fuel - 1) as nat) {
            None => None,
            Some(Err(e)) => Some(Err(e)),
            Some(Ok((body, k))) => Some(Ok(((Seq::empty(), body), k))),
        }
    } else {
        match spec_params_loop(ts, i + 1, Seq::empty(), (fuel - 1) as nat) {
            None => None,
            Some(Err(e)) => Some(Err(e)),
            Some(Ok((params, j))) => {
                match spec_parse_body(ts, spec_skip_newlines(ts, j), (fuel - 1) as nat) {
                    None => None,
                    Some(Err(e)) => Some(Err(e)),
                    Some(Ok((body, k))) => Some(Ok(((params, body), k))),
                }
            },
        }
    }
}

/// What parsing a function or method definition yields; the cursor
/// stands on the `fn` keyword.
pub open spec fn spec_parse_fndef(ts: Seq<Token>, i: int, fuel: nat) -> Option<
    Result<(SpecStmt, int), SpecParseError>,
>
    decreases fuel,
{
    if fuel == 0 {
        None
    } else if i + 1 >= ts.len() {
        Some(Err(SpecParseError::UnexpectedEof { expected: "function or class name"@ }))
    } else {
        match ts[i + 1].token_type {
            TokenType::Identifier(first) => {
                if i + 2 < ts.len() && ts[i + 2].token_type is GreaterThan {
                    if i + 3 >= ts.len() {
                        Some(Err(SpecParseError::UnexpectedEof { expected: "method name"@ }))
                    } else {
                        match ts[i + 3].token_type {
                            TokenType::Identifier(m) => {
                                match spec_params_body(ts, i + 4, (fuel - 1) as nat) {
                                    None => None,
                                    Some(Err(e)) => Some(Err(e)),
                                    Some(Ok(((params, body), j))) => Some(
                                        Ok(
                                            (
                                                SpecStmt::MethodDef {
                                                    class_name: first@,
                                                    method_name: m@,
                                                    params,
                                                    body,
                                                },
                                                j,
                                            ),
                                        ),
                                    ),
                                }
                            },
                            _ => Some(
                                Err(
                                    SpecParseError::UnexpectedToken {
                                        expected: "method name"@,
                                        found: ts[i + 3],
                                    },
                                ),
                            ),
                        }
                    }
                } else {
                    match spec_params_body(ts, i + 2, (fuel - 1) as nat) {
                        None => None,
                        Some(Err(e)) => Some(Err(e)),
                        Some(Ok(((params, body), j))) => Some(
                            Ok((SpecStmt::FunctionDef { name: first@, params, body }, j)),
                        ),
                    }
                }
            },
            _ => Some(
                Err(
                    SpecParseError::UnexpectedToken {
                        expected: "function or class name"@,
                        found: ts[i + 1],
                    },
                ),
            ),
        }
    }
}

/// The elif branches of an if statement, one per loop step.
pub open spec fn spec_elif_loop(
    ts: Seq<Token>,
    i: int,
    acc: Seq<(SpecExpr, Seq<SpecStmt>)>,
    fuel: nat,
) -> Option<Result<(Seq<(SpecExpr, Seq<SpecStmt>)>, int), SpecParseError>>
    decreases fuel,
{
    if fuel == 0 {
        None
    } else if !(0 <= i < ts.len() && ts[i].token_type is Elif) {
        Some(Ok((acc, i)))
    } else {
        match spec_parse_expression(ts, i + 1, 0, (fuel - 1) as nat) {
            None => None,
            Some(Err(e)) => Some(Err(e)),
            Some(Ok((c, j))) => {
                match spec_parse_block(ts, spec_skip_newlines(ts, j), (fuel - 1) as nat) {
                    None => None,
                    Some(Err(e)) => Some(Err(e)),
                    Some(Ok((b, k))) => spec_elif_loop(
                        ts,
                        spec_skip_newlines(ts, k),
                        acc.push((c, b)),
                        (fuel - 1) as nat,
                    ),
                }
            },
        }
    }
}

/// What parsing an if statement yields; the cursor stands on the `if`
/// keyword.
pub open spec fn spec_parse_if(ts: Seq<Token>, i: int, fuel: nat) -> Option<
    Result<(SpecStmt, int), SpecParseError>,
>
    decreases fuel,
{
    if fuel == 0 {
        None
    } else {
        match spec_parse_expression(ts, i + 1, 0, (fuel - 1) as nat) {
            None => None,
            Some(Err(e)) => Some(Err(e)),
            Some(Ok((cond, j))) => {
                match spec_parse_block(ts, spec_skip_newlines(ts, j), (fuel - 1) as nat) {
                    None => None,
                    Some(Err(e)) => Some(Err(e)),
                    Some(Ok((then_b, k))) => {
                        match spec_elif_loop(
                            ts,
                            spec_skip_newlines(ts, k),
                            Seq::empty(),
                            (fuel - 1) as nat,
                        ) {
                            None => None,
                            Some(Err(e)) => Some(Err(e)),
                            Some(Ok((elifs, m))) => {
                                if 0 <= m < ts.len() && ts[m].token_type is Else {
                                    match spec_parse_block(
                                        ts,
                                        spec_skip_newlines(ts, m + 1),
                                        (fuel - 1) as nat,
                                    ) {
                                        None => None,
                                        Some(Err(e)) => Some(Err(e)),
                                        Some(Ok((eb, q))) => Some(
                                            Ok(
                                                (
                                                    SpecStmt::If {
                                                        condition: cond,
                                                        then_branch: then_b,
                                                        elif_branches: elifs,
                                                        else_branch: Some(eb),
                                                    },
                                                    opt_newline(ts, q),
                                                ),
                                            ),
                                        ),
                                    }
                                } else {
                                    Some(
                                        Ok(
                                            (
                                                SpecStmt::If {
                                                    condition: cond,
                                                    then_branch: then_b,
                                                    elif_branches: elifs,
                                                    else_branch: None,
                                                },
                                                opt_newline(ts, m),
                                            ),
                                        ),
                                    )
                                }
                            },
                        }
                    },
                }
            },
        }
    }
}

/// What parsing a while loop yields; the cursor stands on the `while`
/// keyword.
pub open spec fn spec_parse_while(ts: Seq<Token>, i: int, fuel: nat) -> Option<
    Result<(SpecStmt, int), SpecParseError>,
>
    decreases fuel,
{
    if fuel == 0 {
        None
    } else {
        match spec_parse_expression(ts, i + 1, 0, (fuel - 1) as nat) {
            None => None,
            Some(Err(e)) => Some(Err(e)),
            Some(Ok((cond, j))) => {
                match spec_parse_block(ts, spec_skip_newlines(ts, j), (fuel - 1) as nat) {
                    None => None,
                    Some(Err(e)) => Some(Err(e)),
                    Some(Ok((body, k))) => Some(
                        Ok((SpecStmt::While { condition: cond, body }, opt_newline(ts, k))),
                    ),
                }
            },
        }
    }
}

/// What parsing one statement yields, dispatching on its leading token.
pub open spec fn spec_parse_statement(ts: Seq<Token>, i: int, fuel: nat) -> Option<
    Result<(SpecStmt, int), SpecParseError>,
>
    decreases fuel,
{
    if fuel == 0 {
        None
    } else if 0 <= i < ts.len() && ts[i].token_type is Class {
        match spec_parse_class_def(ts, i) {
            Ok(p) => Some(Ok(p)),
            Err(e) => Some(Err(e)),
        }
    } else if 0 <= i < ts.len() && ts[i].token_type is Fn {
        spec_parse_fndef(ts, i, (fuel - 1) as nat)
    } else if 0 <= i < ts.len() && ts[i].token_type is If {
        spec_parse_if(ts, i, (fuel - 1) as nat)
    } else if 0 <= i < ts.len() && ts[i].token_type is While {
        spec_parse_while(ts, i, (fuel - 1) as nat)
    } else if 0 <= i < ts.len() && i + 1 < ts.len() && ts[i].token_type is Identifier
        && ts[i + 1].token_type is Equals {
        match ts[i].token_type {
            TokenType::Identifier(name) => {
                match spec_parse_expression(ts, i + 2, 0, (fuel - 1) as nat) {
                    None => None,
                    Some(Err(e)) => Some(Err(e)),
                    Some(Ok((v, j))) => Some(
                        Ok(
                            (
                                SpecStmt::Assignment { name: name@, value: v },
                                opt_newline(ts, j),
                            ),
                        ),
                    ),
                }
            },
            _ => None,
        }
    } else if 0 <= i < ts.len() && ts[i].token_type is Self_ && i + 1 < ts.len() && ts[i
        + 1].token_type is Dot && i + 2 < ts.len() && ts[i + 2].token_type is Identifier && i + 3
        < ts.len() && ts[i + 3].token_type is Equals {
        match ts[i + 2].token_type {
            TokenType::Identifier(field) => {
                match spec_parse_expression(ts, i + 4, 0, (fuel - 1) as nat) {
                    None => None,
                    Some(Err(e)) => Some(Err(e)),
                    Some(Ok((v, j))) => Some(
                        Ok(
                            (
                                SpecStmt::Assignment { name: "self."@ + field@, value: v },
                                opt_newline(ts, j),
                            ),
                        ),
                    ),
                }
            },
            _ => None,
        }
    } else {
        match spec_parse_expression(ts, i, 0, (fuel - 1) as nat) {
            None => None,
            Some(Err(e)) => Some(Err(e)),
            Some(Ok((e, j))) => Some(Ok((SpecStmt::Expression(e), opt_newline(ts, j)))),
        }
    }
}

/// The statements of the whole input, one per loop step, stopping at the
/// end of input or the EOF token.
pub open spec fn spec_prog_loop(ts: Seq<Token>, i: int, acc: Seq<SpecStmt>, fuel: nat) -> Option<
    Result<(Seq<SpecStmt>, int), SpecParseError>,
>
    decreases fuel,
{
    if fuel == 0 {
        None
    } else if spec_at_end(ts, i) {
        Some(Ok((acc, i)))
    } else {
        match spec_parse_statement(ts, i, (fuel - 1) as nat) {
            None => None,
            Some(Err(e)) => Some(Err(e)),
            Some(Ok((st, j))) => spec_prog_loop(
                ts,
                spec_skip_newlines(ts, j),
                acc.push(st),
                (fuel - 1) as nat,
            ),
        }
    }
}

/// What parsing a whole program yields: leading newlines skipped, then
/// statements until the end of input.
pub open spec fn spec_parse_program(ts: Seq<Token>, i: int, fuel: nat) -> Option<
    Result<(Seq<SpecStmt>, int), SpecParseError>,
>
    decreases fuel,
{
    if fuel == 0 {
        None
    } else {
        spec_prog_loop(ts, spec_skip_newlines(ts, i), Seq::empty(), (fuel - 1) as nat)
    }
}

/// The spec-level outcome that an executable statement-parsing result
/// stands for.
pub open spec fn spec_stmt_outcome(r: ParseResult<Statement>, pos: int) -> Option<
    Result<(SpecStmt, int), SpecParseError>,
> {
    Some(
        match r {
            Ok(st) => Ok((st@, pos)),
            Err(pe) => Err(pe@),
        },
    )
}

/// The spec-level outcome that an executable block-parsing result stands
/// for.
pub open spec fn spec_block_outcome(r: ParseResult<Vec<Statement>>, pos: int) -> Option<
    Result<(Seq<SpecStmt>, int), SpecParseError>,
> {
    Some(
        match r {
            Ok(v) => Ok((stmts_view(v@), pos)),
            Err(pe) => Err(pe@),
        },
    )
}

/// The spec-level outcome that an executable params-and-body result
/// stands for.
pub open spec fn spec_pb_outcome(r: ParseResult<(Vec<String>, Vec<Statement>)>, pos: int)
    -> Option<Result<((Seq<Seq<char>>, Seq<SpecStmt>), int), SpecParseError>> {
    Some(
        match r {
            Ok(pb) => Ok(((params_view(pb.0@), stmts_view(pb.1@)), pos)),
            Err(pe) => Err(pe@),
        },
    )
}

/// The spec-level outcome that an executable program-parsing result
/// stands for.
pub open spec fn spec_prog_outcome(r: ParseResult<Program>, pos: int) -> Option<
    Result<(Seq<SpecStmt>, int), SpecParseError>,
> {
    Some(
        match r {
            Ok(p) => Ok((p@, pos)),
            Err(pe) => Err(pe@),
        },
    )
}

/// Parser for the Grit language: a cursor over a token sequence.
pub struct Parser {
    pub tokens: Vec<Token>,
    pub position: usize,
}

impl Parser {
    /// The parser's well-formedness: the cursor never lies more than one
    /// past the last token.
    pub open spec fn wf(&self) -> bool {
        self.position <= self.tokens@.len()
    }

    /// Creates a new parser from a vector of tokens.
    pub fn new(tokens: Vec<Token>) -> (p: Parser)
        ensures
            p.wf(),
            p.tokens == tokens,
            p.position == 0,
    {
        Parser { tokens, position: 0 }
    }

    /// Returns the current token without consuming it.
    pub fn current_token(&self) -> (r: Option<&Token>)
        ensures
            r == (if self.position < self.tokens@.len() {
                Some(&self.tokens@[self.position as int])
            } else {
                Option::<&Token>::None
            }),
    {
        if self.position < self.tokens.len() {
            Some(&self.tokens[self.position])
        } else {
            None
        }
    }

    /// Advances to the next token.
    pub fn advance(&mut self)
        requires
            old(self).wf(),
        ensures
            final(self).wf(),
            final(self).tokens == old(self).tokens,
            final(self).position == (if old(self).position < old(self).tokens@.len() {
                old(self).position + 1
            } else {
                old(self).position as int
            }),
    {
        if self.position < self.tokens.len() {
            self.position += 1;
        }
    }

    /// Checks if the current token is EOF (or the cursor is past the end).
    pub fn is_at_end(&self) -> (r: bool)
        ensures
            r == spec_at_end(self.tokens@, self.position as int),
    {
        match self.current_token() {
            Some(token) => matches!(token.token_type, TokenType::Eof),
            None => true,
        }
    }

    /// Skips newline tokens.
    fn skip_newlines(&mut self)
        requires
            old(self).wf(),
        ensures
            final(self).wf(),
            final(self).tokens == old(self).tokens,
            final(self).position as int == spec_skip_newlines(
                old(self).tokens@,
                old(self).position as int,
            ),
            old(self).position <= final(self).position,
    {
        let ghost ts = self.tokens@;
        let ghost p0 = self.position as int;
        loop
            invariant
                self.wf(),
                self.tokens@ == ts,
                self.tokens == old(self).tokens,
                p0 <= self.position as int,
                spec_skip_newlines(ts, p0) == spec_skip_newlines(ts, self.position as int),
            ensures
                self.wf(),
                self.tokens == old(self).tokens,
                self.position as int == spec_skip_newlines(ts, p0),
            decreases ts.len() - self.position,
        {
            let cont = match self.current_token() {
                Some(token) => matches!(token.token_type, TokenType::Newline),
                None => false,
            };
            if cont {
                self.advance();
            } else {
                break;
            }
        }
    }

    /// Converts a token type to a binary operator.
    pub fn token_to_operator(token_type: &TokenType) -> (r: Option<BinaryOperator>)
        ensures
            r == spec_token_to_operator(*token_type),
    {
        match token_type {
            TokenType::Plus => Some(BinaryOperator::Add),
            TokenType::Minus => Some(BinaryOperator::Subtract),
            TokenType::Multiply => Some(BinaryOperator::Multiply),
            TokenType::Divide => Some(BinaryOperator::Divide),
            TokenType::EqualEqual => Some(BinaryOperator::EqualEqual),
            TokenType::NotEqual => Some(BinaryOperator::NotEqual),
            TokenType::LessThan => Some(BinaryOperator::LessThan),
            TokenType::LessThanOrEqual => Some(BinaryOperator::LessThanOrEqual),
            TokenType::GreaterThan => Some(BinaryOperator::GreaterThan),
            TokenType::GreaterThanOrEqual => Some(BinaryOperator::GreaterThanOrEqual),
            _ => None,
        }
    }

    /// Parses a primary expression: a literal, `self`, an identifier or
    /// function call, or a parenthesized group. Where the cursor stands
    /// past the tokens or on a token that cannot start a primary
    /// expression, it does not move; on an error found deeper inside the
    /// expression the parse aborts and the cursor rests where the fault
    /// was found.
    pub fn parse_primary(&mut self) -> (r: ParseResult<Expr>)
        requires
            old(self).wf(),
        ensures
            final(self).wf(),
            final(self).tokens == old(self).tokens,
            old(self).position <= final(self).position,
            r is Ok ==> old(self).position < final(self).position,
            old(self).position as int >= old(self).tokens@.len() ==> final(self).position == old(
                self,
            ).position,
            (old(self).position as int) < old(self).tokens@.len() && !spec_primary_start(
                old(self).tokens@[old(self).position as int].token_type,
            ) ==> final(self).position == old(self).position,
            forall|fuel: nat|
                fuel as int >= pfuel(old(self).tokens@, old(self).position as int, 0)
                    ==> spec_parse_primary(old(self).tokens@, old(self).position as int, fuel)
                    == spec_expr_outcome(r, final(self).position as int),
        decreases old(self).tokens@.len() - old(self).position, 0int,
    {
        let ghost ts = self.tokens@;
        let ghost i0 = self.position as int;

        let token = match self.current_token() {
            Some(t) => t,
            None => {
                return Err(ParseError::UnexpectedEof { expected: "expression".to_owned() });
            },
        };

        match &token.token_type {
            TokenType::Integer(n) => {
                let value = *n;
                self.advance();
                Ok(Expr::Integer(value))
            },
            TokenType::Float(t) => {
                let value = t.clone();
                self.advance();
                Ok(Expr::Float(value))
            },
            TokenType::String(s) => {
                let value = s.clone();
                self.advance();
                Ok(Expr::String(value))
            },
            TokenType::Self_ => {
                self.advance();
                let r = Ok(Expr::Identifier("self".to_owned()));
                proof {
                    reveal_strlit("self");
                }
                r
            },
            TokenType::Identifier(name) => {
                let name = name.clone();
                self.advance();

                // A following '(' makes this a function call.
                let is_call = match self.current_token() {
                    Some(t) => matches!(t.token_type, TokenType::LeftParen),
                    None => false,
                };
                if is_call {
                    self.advance();  // consume '('
                    match self.parse_call_args() {
                        Ok(args) => {
                            let ghost argsv = args@;
                            let r = Ok(Expr::FunctionCall { name, args });
                            proof {
                                assert forall|fuel: nat| fuel as int >= pfuel(ts, i0, 0) implies
                                    spec_parse_primary(ts, i0, fuel) == spec_expr_outcome(
                                    r,
                                    self.position as int,
                                ) by {
                                    assert(fuel >= 1);
                                    assert(0 <= i0 < ts.len());
                                    assert(ts[i0].token_type is Identifier);
                                    assert(i0 + 1 < ts.len());
                                    assert(ts[i0 + 1].token_type is LeftParen);
                                    assert((fuel - 1) as int >= pfuel(ts, i0 + 2, 3));
                                    assert(spec_parse_args(ts, i0 + 2, (fuel - 1) as nat) == Some(
                                        Ok::<(Seq<SpecExpr>, int), SpecParseError>(
                                            (exprs_view(argsv), self.position as int),
                                        ),
                                    ));
                                    assert(r->Ok_0@ == (SpecExpr::Call {
                                        name: name@,
                                        args: exprs_view(argsv),
                                    }));
                                }
                            }
                            return r;
                        },
                        Err(e) => {
                            let ghost ev = e@;
                            let r = Err::<Expr, ParseError>(e);
                            proof {
                                assert forall|fuel: nat| fuel as int >= pfuel(ts, i0, 0) implies
                                    spec_parse_primary(ts, i0, fuel) == spec_expr_outcome(
                                    r,
                                    self.position as int,
                                ) by {
                                    assert((fuel - 1) as int >= pfuel(ts, i0 + 2, 3));
                                    assert(spec_parse_args(ts, i0 + 2, (fuel - 1) as nat) == Some(
                                        Err::<(Seq<SpecExpr>, int), SpecParseError>(ev),
                                    ));
                                    assert(r->Err_0@ == ev);
                                }
                            }
                            return r;
                        },
                    }
                }
                Ok(Expr::Identifier(name))
            },
            TokenType::LeftParen => {
                self.advance();  // consume '('
                match self.parse_expression(0) {
                    Ok(expr) => {
                        let ghost innerv = expr@;
                        let ghost jpos = self.position as int;
                        match self.current_token() {
                            Some(t) => {
                                if matches!(t.token_type, TokenType::Eof) {
                                    // An unterminated group is an end-of-input
                                    // fault, whether or not the EOF marker
                                    // token is present.
                                    let r = Err::<Expr, ParseError>(
                                        ParseError::UnexpectedEof { expected: "')'".to_owned() },
                                    );
                                    proof {
                                        assert forall|fuel: nat| fuel as int >= pfuel(ts, i0, 0)
                                            implies spec_parse_primary(ts, i0, fuel)
                                            == spec_expr_outcome(r, self.position as int) by {
                                            assert((fuel - 1) as int >= pfuel(ts, i0 + 1, 1));
                                            assert(spec_parse_expression(
                                                ts,
                                                i0 + 1,
                                                0,
                                                (fuel - 1) as nat,
                                            ) == Some(
                                                Ok::<(SpecExpr, int), SpecParseError>(
                                                    (innerv, jpos),
                                                ),
                                            ));
                                        }
                                    }
                                    return r;
                                }
                                if !matches!(t.token_type, TokenType::RightParen) {
                                    let r = Err::<Expr, ParseError>(
                                        ParseError::UnexpectedToken {
                                            expected: "')'".to_owned(),
                                            found: t.clone(),
                                        },
                                    );
                                    proof {
                                        assert forall|fuel: nat| fuel as int >= pfuel(ts, i0, 0)
                                            implies spec_parse_primary(ts, i0, fuel)
                                            == spec_expr_outcome(r, self.position as int) by {
                                            assert((fuel - 1) as int >= pfuel(ts, i0 + 1, 1));
                                            assert(spec_parse_expression(
                                                ts,
                                                i0 + 1,
                                                0,
                                                (fuel - 1) as nat,
                                            ) == Some(
                                                Ok::<(SpecExpr, int), SpecParseError>(
                                                    (innerv, jpos),
                                                ),
                                            ));
                                        }
                                    }
                                    return r;
                                }
                            },
                            None => {
                                let r = Err::<Expr, ParseError>(
                                    ParseError::UnexpectedEof { expected: "')'".to_owned() },
                                );
                                proof {
                                    assert forall|fuel: nat| fuel as int >= pfuel(ts, i0, 0)
                                        implies spec_parse_primary(ts, i0, fuel)
                                        == spec_expr_outcome(r, self.position as int) by {
                                        assert((fuel - 1) as int >= pfuel(ts, i0 + 1, 1));
                                        assert(spec_parse_expression(
                                            ts,
                                            i0 + 1,
                                            0,
                                            (fuel - 1) as nat,
                                        ) == Some(
                                            Ok::<(SpecExpr, int), SpecParseError>((innerv, jpos)),
                                        ));
                                    }
                                }
                                return r;
                            },
                        }
                        self.advance();  // consume ')'
                        let r = Ok(Expr::Grouped(Box::new(expr)));
                        proof {
                            assert forall|fuel: nat| fuel as int >= pfuel(ts, i0, 0) implies
                                spec_parse_primary(ts, i0, fuel) == spec_expr_outcome(
                                r,
                                self.position as int,
                            ) by {
                                assert((fuel - 1) as int >= pfuel(ts, i0 + 1, 1));
                                assert(spec_parse_expression(ts, i0 + 1, 0, (fuel - 1) as nat)
                                    == Some(
                                    Ok::<(SpecExpr, int), SpecParseError>((innerv, jpos)),
                                ));
                                assert(r->Ok_0@ == SpecExpr::Grouped(Box::new(innerv)));
                            }
                        }
                        r
                    },
                    Err(e) => {
                        let ghost ev = e@;
                        let r = Err::<Expr, ParseError>(e);
                        proof {
                            assert forall|fuel: nat| fuel as int >= pfuel(ts, i0, 0) implies
                                spec_parse_primary(ts, i0, fuel) == spec_expr_outcome(
                                r,
                                self.position as int,
                            ) by {
                                assert((fuel - 1) as int >= pfuel(ts, i0 + 1, 1));
                                assert(spec_parse_expression(ts, i0 + 1, 0, (fuel - 1) as nat)
                                    == Some(Err::<(SpecExpr, int), SpecParseError>(ev)));
                                assert(r->Err_0@ == ev);
                            }
                        }
                        r
                    },
                }
            },
            _ => Err(ParseError::InvalidExpression { token: token.clone() }),
        }
    }

    /// Parses a parenthesized, comma-separated argument list; the cursor
    /// stands just past the opening parenthesis, and ends just past the
    /// closing one.
    fn parse_call_args(&mut self) -> (r: ParseResult<Vec<Expr>>)
        requires
            old(self).wf(),
        ensures
            final(self).wf(),
            final(self).tokens == old(self).tokens,
            old(self).position <= final(self).position,
            r is Ok ==> old(self).position < final(self).position,
            forall|fuel: nat|
                fuel as int >= pfuel(old(self).tokens@, old(self).position as int, 3)
                    ==> spec_parse_args(old(self).tokens@, old(self).position as int, fuel)
                    == spec_args_outcome(r, final(self).position as int),
        decreases old(self).tokens@.len() - old(self).position, 2int,
    {
        let ghost ts = self.tokens@;
        let ghost i0 = self.position as int;
        let mut args: Vec<Expr> = Vec::new();

        let enter_loop = match self.current_token() {
            Some(t) => !matches!(t.token_type, TokenType::RightParen),
            None => false,
        };
        if enter_loop {
            let ghost mut used: nat = 0;
            proof {
                lemma_exprs_view(Seq::<Expr>::empty());
                assert(exprs_view(args@) =~= Seq::<SpecExpr>::empty());
            }
            loop
                invariant_except_break
                    forall|f: nat|
                        f as int >= pfuel(ts, i0, 3) ==> spec_parse_args(ts, i0, f)
                            == spec_args_loop(
                            ts,
                            self.position as int,
                            exprs_view(args@),
                            (f - 1 - used) as nat,
                        ),
                    pfuel(ts, i0, 3) - 1 - used >= pfuel(ts, self.position as int, 2),
                invariant
                    self.wf(),
                    self.tokens == old(self).tokens,
                    ts == old(self).tokens@,
                    i0 == old(self).position as int,
                    0 <= i0 <= self.position as int <= ts.len(),
                ensures
                    self.wf(),
                    self.tokens == old(self).tokens,
                    i0 <= (self.position as int) < ts.len(),
                    (ts[self.position as int].token_type is RightParen),
                    forall|f: nat|
                        f as int >= pfuel(ts, i0, 3) ==> spec_parse_args(ts, i0, f) == Some(
                            Ok::<(Seq<SpecExpr>, int), SpecParseError>(
                                (exprs_view(args@), self.position + 1),
                            ),
                        ),
                decreases ts.len() - self.position,
            {
                let ghost cur = self.position as int;
                let ghost pre_args = args@;
                let arg = match self.parse_expression(0) {
                    Ok(e) => e,
                    Err(e) => {
                        let ghost ev = e@;
                        let r = Err::<Vec<Expr>, ParseError>(e);
                        proof {
                            assert forall|f: nat| f as int >= pfuel(ts, i0, 3) implies
                                spec_parse_args(ts, i0, f) == spec_args_outcome(
                                r,
                                self.position as int,
                            ) by {
                                let g = (f - 1 - used) as nat;
                                assert(g as int >= pfuel(ts, cur, 2));
                                assert((g - 1) as int >= pfuel(ts, cur, 1));
                                assert(spec_parse_expression(ts, cur, 0, (g - 1) as nat) == Some(
                                    Err::<(SpecExpr, int), SpecParseError>(ev),
                                ));
                                assert(r->Err_0@ == ev);
                            }
                        }
                        return r;
                    },
                };
                let ghost argv = arg@;
                let ghost jpos = self.position as int;
                args.push(arg);
                proof {
                    lemma_exprs_view(pre_args);
                    lemma_exprs_view(args@);
                    assert(exprs_view(args@) =~= exprs_view(pre_args).push(argv));
                }

                match self.current_token() {
                    Some(t) => {
                        if matches!(t.token_type, TokenType::Comma) {
                            self.advance();  // consume ','
                            proof {
                                assert forall|f: nat| f as int >= pfuel(ts, i0, 3) implies
                                    spec_parse_args(ts, i0, f) == spec_args_loop(
                                    ts,
                                    self.position as int,
                                    exprs_view(args@),
                                    (f - 1 - (used + 1)) as nat,
                                ) by {
                                    let g = (f - 1 - used) as nat;
                                    assert(g as int >= pfuel(ts, cur, 2));
                                    assert((g - 1) as int >= pfuel(ts, cur, 1));
                                    assert(spec_parse_expression(ts, cur, 0, (g - 1) as nat)
                                        == Some(
                                        Ok::<(SpecExpr, int), SpecParseError>((argv, jpos)),
                                    ));
                                    assert(spec_args_loop(ts, cur, exprs_view(pre_args), g)
                                        == spec_args_loop(
                                        ts,
                                        jpos + 1,
                                        exprs_view(pre_args).push(argv),
                                        (g - 1) as nat,
                                    ));
                                }
                                used = used + 1;
                            }
                        } else if matches!(t.token_type, TokenType::RightParen) {
                            proof {
                                assert forall|f: nat| f as int >= pfuel(ts, i0, 3) implies
                                    spec_parse_args(ts, i0, f) == Some(
                                    Ok::<(Seq<SpecExpr>, int), SpecParseError>(
                                        (exprs_view(args@), self.position + 1),
                                    ),
                                ) by {
                                    let g = (f - 1 - used) as nat;
                                    assert(g as int >= pfuel(ts, cur, 2));
                                    assert((g - 1) as int >= pfuel(ts, cur, 1));
                                    assert(spec_parse_expression(ts, cur, 0, (g - 1) as nat)
                                        == Some(
                                        Ok::<(SpecExpr, int), SpecParseError>((argv, jpos)),
                                    ));
                                    assert(spec_args_loop(ts, cur, exprs_view(pre_args), g)
                                        == Some(
                                        Ok::<(Seq<SpecExpr>, int), SpecParseError>(
                                            (exprs_view(pre_args).push(argv), jpos + 1),
                                        ),
                                    ));
                                }
                            }
                            break;
                        } else if matches!(t.token_type, TokenType::Eof) {
                            // An unterminated argument list is an
                            // end-of-input fault, whether or not the EOF
                            // marker token is present.
                            let r = Err::<Vec<Expr>, ParseError>(
                                ParseError::UnexpectedEof { expected: "')'".to_owned() },
                            );
                            proof {
                                assert forall|f: nat| f as int >= pfuel(ts, i0, 3) implies
                                    spec_parse_args(ts, i0, f) == spec_args_outcome(
                                    r,
                                    self.position as int,
                                ) by {
                                    let g = (f - 1 - used) as nat;
                                    assert(g as int >= pfuel(ts, cur, 2));
                                    assert((g - 1) as int >= pfuel(ts, cur, 1));
                                    assert(spec_parse_expression(ts, cur, 0, (g - 1) as nat)
                                        == Some(
                                        Ok::<(SpecExpr, int), SpecParseError>((argv, jpos)),
                                    ));
                                }
                            }
                            return r;
                        } else {
                            let r = Err::<Vec<Expr>, ParseError>(
                                ParseError::UnexpectedToken {
                                    expected: "',' or ')'".to_owned(),
                                    found: t.clone(),
                                },
                            );
                            proof {
                                assert forall|f: nat| f as int >= pfuel(ts, i0, 3) implies
                                    spec_parse_args(ts, i0, f) == spec_args_outcome(
                                    r,
                                    self.position as int,
                                ) by {
                                    let g = (f - 1 - used) as nat;
                                    assert(g as int >= pfuel(ts, cur, 2));
                                    assert((g - 1) as int >= pfuel(ts, cur, 1));
                                    assert(spec_parse_expression(ts, cur, 0, (g - 1) as nat)
                                        == Some(
                                        Ok::<(SpecExpr, int), SpecParseError>((argv, jpos)),
                                    ));
                                }
                            }
                            return r;
                        }
                    },
                    None => {
                        let r = Err::<Vec<Expr>, ParseError>(
                            ParseError::UnexpectedEof { expected: "')'".to_owned() },
                        );
                        proof {
                            assert forall|f: nat| f as int >= pfuel(ts, i0, 3) implies
                                spec_parse_args(ts, i0, f) == spec_args_outcome(
                                r,
                                self.position as int,
                            ) by {
                                let g = (f - 1 - used) as nat;
                                assert(g as int >= pfuel(ts, cur, 2));
                                assert((g - 1) as int >= pfuel(ts, cur, 1));
                                assert(spec_parse_expression(ts, cur, 0, (g - 1) as nat) == Some(
                                    Ok::<(SpecExpr, int), SpecParseError>((argv, jpos)),
                                ));
                            }
                        }
                        return r;
                    },
                }
            }
        }

        let token = match self.current_token() {
            Some(t) => t,
            None => {
                return Err(ParseError::UnexpectedEof { expected: "')'".to_owned() });
            },
        };
        if !matches!(token.token_type, TokenType::RightParen) {
            return Err(ParseError::UnexpectedToken {
                expected: "')'".to_owned(),
                found: token.clone(),
            });
        }
        self.advance();  // consume ')'
        proof {
            if !enter_loop {
                lemma_exprs_view(args@);
                assert(exprs_view(args@) =~= Seq::<SpecExpr>::empty());
            }
        }
        Ok(args)
    }

    /// Parses an expression by precedence climbing: same-precedence chains
    /// fold to the left, and the dot operator binds tightest, always
    /// producing a method call.
    fn parse_expression(&mut self, min_precedence: u8) -> (r: ParseResult<Expr>)
        requires
            old(self).wf(),
        ensures
            final(self).wf(),
            final(self).tokens == old(self).tokens,
            old(self).position <= final(self).position,
            r is Ok ==> old(self).position < final(self).position,
            forall|fuel: nat|
                fuel as int >= pfuel(old(self).tokens@, old(self).position as int, 1)
                    ==> spec_parse_expression(
                    old(self).tokens@,
                    old(self).position as int,
                    min_precedence as int,
                    fuel,
                ) == spec_expr_outcome(r, final(self).position as int),
        decreases old(self).tokens@.len() - old(self).position, 1int,
    {
        let ghost ts = self.tokens@;
        let ghost i0 = self.position as int;
        let ghost mp = min_precedence as int;

        let mut left = match self.parse_primary() {
            Ok(e) => e,
            Err(e) => {
                let ghost ev = e@;
                let r = Err::<Expr, ParseError>(e);
                proof {
                    assert forall|fuel: nat| fuel as int >= pfuel(ts, i0, 1) implies
                        spec_parse_expression(ts, i0, mp, fuel) == spec_expr_outcome(
                        r,
                        self.position as int,
                    ) by {
                        assert((fuel - 1) as int >= pfuel(ts, i0, 0));
                        assert(spec_parse_primary(ts, i0, (fuel - 1) as nat) == Some(
                            Err::<(SpecExpr, int), SpecParseError>(ev),
                        ));
                        assert(r->Err_0@ == ev);
                    }
                }
                return r;
            },
        };
        let ghost mut used: nat = 0;
        let ghost left0 = left@;
        let ghost jpos0 = self.position as int;
        proof {
            assert forall|f: nat| f as int >= pfuel(ts, i0, 1) implies spec_parse_expression(
                ts,
                i0,
                mp,
                f,
            ) == spec_climb(ts, self.position as int, left@, mp, (f - 1 - used) as nat) by {
                assert((f - 1) as int >= pfuel(ts, i0, 0));
                assert(spec_parse_primary(ts, i0, (f - 1) as nat) == Some(
                    Ok::<(SpecExpr, int), SpecParseError>((left0, jpos0)),
                ));
            }
        }

        loop
            invariant_except_break
                forall|f: nat|
                    f as int >= pfuel(ts, i0, 1) ==> spec_parse_expression(ts, i0, mp, f)
                        == spec_climb(
                        ts,
                        self.position as int,
                        left@,
                        mp,
                        (f - 1 - used) as nat,
                    ),
                pfuel(ts, i0, 1) - 1 - used >= pfuel(ts, self.position as int, 0),
            invariant
                self.wf(),
                self.tokens == old(self).tokens,
                ts == old(self).tokens@,
                i0 == old(self).position as int,
                mp == min_precedence as int,
                0 <= i0 < (self.position as int) <= ts.len(),
            ensures
                self.wf(),
                self.tokens == old(self).tokens,
                i0 < (self.position as int) <= ts.len(),
                forall|f: nat|
                    f as int >= pfuel(ts, i0, 1) ==> spec_parse_expression(ts, i0, mp, f) == Some(
                        Ok::<(SpecExpr, int), SpecParseError>((left@, self.position as int)),
                    ),
            decreases ts.len() - self.position,
        {
            let ghost cur = self.position as int;
            let token = match self.current_token() {
                Some(t) => t,
                None => {
                    proof {
                        assert forall|f: nat| f as int >= pfuel(ts, i0, 1) implies
                            spec_parse_expression(ts, i0, mp, f) == Some(
                            Ok::<(SpecExpr, int), SpecParseError>((left@, self.position as int)),
                        ) by {
                            let g = (f - 1 - used) as nat;
                            assert(g as int >= pfuel(ts, cur, 0));
                            assert(spec_climb(ts, cur, left@, mp, g) == Some(
                                Ok::<(SpecExpr, int), SpecParseError>((left@, cur)),
                            ));
                        }
                    }
                    break;
                },
            };
            if matches!(token.token_type, TokenType::Eof) {
                proof {
                    assert forall|f: nat| f as int >= pfuel(ts, i0, 1) implies
                        spec_parse_expression(ts, i0, mp, f) == Some(
                        Ok::<(SpecExpr, int), SpecParseError>((left@, self.position as int)),
                    ) by {
                        let g = (f - 1 - used) as nat;
                        assert(g as int >= pfuel(ts, cur, 0));
                        assert(spec_climb(ts, cur, left@, mp, g) == Some(
                            Ok::<(SpecExpr, int), SpecParseError>((left@, cur)),
                        ));
                }
                }
                    break;
            }
            // Stop at statement terminators.
            if matches!(
                token.token_type,
                TokenType::Newline | TokenType::Comma | TokenType::RightParen
            ) {
                proof {
                    assert forall|f: nat| f as int >= pfuel(ts, i0, 1) implies
                        spec_parse_expression(ts, i0, mp, f) == Some(
                        Ok::<(SpecExpr, int), SpecParseError>((left@, self.position as int)),
                    ) by {
                        let g = (f - 1 - used) as nat;
                        assert(g as int >= pfuel(ts, cur, 0));
                        assert(spec_climb(ts, cur, left@, mp, g) == Some(
                            Ok::<(SpecExpr, int), SpecParseError>((left@, cur)),
                        ));
                }
                }
                    break;
            }

            // The dot operator (field access / method call) binds tightest.
            if matches!(token.token_type, TokenType::Dot) {
                self.advance();  // consume '.'

                let field = match self.current_token() {
                    Some(t) => {
                        match &t.token_type {
                            TokenType::Identifier(name) => {
                                let name = name.clone();
                                name
                            },
                            _ => {
                                let r = Err::<Expr, ParseError>(
                                    ParseError::UnexpectedToken {
                                        expected: "field or method name".to_owned(),
                                        found: t.clone(),
                                    },
                                );
                                proof {
                                    assert forall|f: nat| f as int >= pfuel(ts, i0, 1) implies
                                        spec_parse_expression(ts, i0, mp, f) == spec_expr_outcome(
                                        r,
                                        self.position as int,
                                    ) by {
                                        let g = (f - 1 - used) as nat;
                                        assert(g as int >= pfuel(ts, cur, 0));
                                    }
                                }
                                return r;
                            },
                        }
                    },
                    None => {
                        let r = Err::<Expr, ParseError>(
                            ParseError::UnexpectedEof {
                                expected: "field or method name".to_owned(),
                            },
                        );
                        proof {
                            assert forall|f: nat| f as int >= pfuel(ts, i0, 1) implies
                                spec_parse_expression(ts, i0, mp, f) == spec_expr_outcome(
                                r,
                                self.position as int,
                            ) by {
                                let g = (f - 1 - used) as nat;
                                assert(g as int >= pfuel(ts, cur, 0));
                            }
                        }
                        return r;
                    },
                };
                self.advance();  // consume the name

                // Explicit call parentheses are optional: a bare field read
                // is a method call with no arguments.
                let mut args: Vec<Expr> = Vec::new();
                let has_parens = match self.current_token() {
                    Some(t) => matches!(t.token_type, TokenType::LeftParen),
                    None => false,
                };
                let ghost mut spec_args_pos: int = self.position as int;
                if has_parens {
                    self.advance();  // consume '('
                    args = match self.parse_call_args() {
                        Ok(a) => a,
                        Err(e) => {
                            let ghost ev = e@;
                            let r = Err::<Expr, ParseError>(e);
                            proof {
                                assert forall|f: nat| f as int >= pfuel(ts, i0, 1) implies
                                    spec_parse_expression(ts, i0, mp, f) == spec_expr_outcome(
                                    r,
                                    self.position as int,
                                ) by {
                                    let g = (f - 1 - used) as nat;
                                    assert(g as int >= pfuel(ts, cur, 0));
                                    assert((g - 1) as int >= pfuel(ts, cur + 3, 3));
                                    assert(spec_parse_args(ts, cur + 3, (g - 1) as nat) == Some(
                                        Err::<(Seq<SpecExpr>, int), SpecParseError>(ev),
                                    ));
                                    assert(r->Err_0@ == ev);
                                }
                            }
                            return r;
                        },
                    };
                    proof {
                        spec_args_pos = self.position as int;
                    }
                } else {
                    proof {
                        lemma_exprs_view(args@);
                        assert(exprs_view(args@) =~= Seq::<SpecExpr>::empty());
                    }
                }

                let ghost argsv = exprs_view(args@);
                let ghost pre_left = left@;
                left = Expr::MethodCall { object: Box::new(left), method: field, args };
                proof {
                    assert forall|f: nat| f as int >= pfuel(ts, i0, 1) implies
                        spec_parse_expression(ts, i0, mp, f) == spec_climb(
                        ts,
                        self.position as int,
                        left@,
                        mp,
                        (f - 1 - (used + 1)) as nat,
                    ) by {
                        let g = (f - 1 - used) as nat;
                        assert(g as int >= pfuel(ts, cur, 0));
                        assert(left@ == SpecExpr::Method {
                            object: Box::new(pre_left),
                            method: field@,
                            args: argsv,
                        });
                        if cur + 2 < ts.len() && ts[cur + 2].token_type is LeftParen {
                            assert((g - 1) as int >= pfuel(ts, cur + 3, 3));
                            assert(spec_parse_args(ts, cur + 3, (g - 1) as nat) == Some(
                                Ok::<(Seq<SpecExpr>, int), SpecParseError>(
                                    (argsv, spec_args_pos),
                                ),
                            ));
                            assert(spec_climb(ts, cur, pre_left, mp, g) == spec_climb(
                                ts,
                                spec_args_pos,
                                left@,
                                mp,
                                (g - 1) as nat,
                            ));
                        } else {
                            assert(spec_climb(ts, cur, pre_left, mp, g) == spec_climb(
                                ts,
                                cur + 2,
                                left@,
                                mp,
                                (g - 1) as nat,
                            ));
                        }
                    }
                    used = used + 1;
                }
                continue;
            }

            let op = {
                let t = self.current_token();
                let op = match t {
                    Some(t) => Self::token_to_operator(&t.token_type),
                    None => None,
                };
                match op {
                    Some(op) => op,
                    None => {
                        proof {
                        assert forall|f: nat| f as int >= pfuel(ts, i0, 1) implies
                            spec_parse_expression(ts, i0, mp, f) == Some(
                            Ok::<(SpecExpr, int), SpecParseError>((left@, self.position as int)),
                        ) by {
                            let g = (f - 1 - used) as nat;
                            assert(g as int >= pfuel(ts, cur, 0));
                            assert(spec_climb(ts, cur, left@, mp, g) == Some(
                                Ok::<(SpecExpr, int), SpecParseError>((left@, cur)),
                            ));
                        }
                    }
                    break;
                    },
                }
            };

            let precedence = op.precedence();
            if precedence < min_precedence {
                proof {
                    assert forall|f: nat| f as int >= pfuel(ts, i0, 1) implies
                        spec_parse_expression(ts, i0, mp, f) == Some(
                        Ok::<(SpecExpr, int), SpecParseError>((left@, self.position as int)),
                    ) by {
                        let g = (f - 1 - used) as nat;
                        assert(g as int >= pfuel(ts, cur, 0));
                        assert(spec_climb(ts, cur, left@, mp, g) == Some(
                            Ok::<(SpecExpr, int), SpecParseError>((left@, cur)),
                        ));
                }
                }
                    break;
            }

            self.advance();  // consume the operator

            let right = match self.parse_expression(precedence + 1) {
                Ok(e) => e,
                Err(e) => {
                    let ghost ev = e@;
                    let r = Err::<Expr, ParseError>(e);
                    proof {
                        assert forall|f: nat| f as int >= pfuel(ts, i0, 1) implies
                            spec_parse_expression(ts, i0, mp, f) == spec_expr_outcome(
                            r,
                            self.position as int,
                        ) by {
                            let g = (f - 1 - used) as nat;
                            assert(g as int >= pfuel(ts, cur, 0));
                            assert((g - 1) as int >= pfuel(ts, cur + 1, 1));
                            assert(spec_parse_expression(
                                ts,
                                cur + 1,
                                spec_precedence(op) + 1,
                                (g - 1) as nat,
                            ) == Some(Err::<(SpecExpr, int), SpecParseError>(ev)));
                            assert(r->Err_0@ == ev);
                        }
                    }
                    return r;
                },
            };
            let ghost rightv = right@;
            let ghost jpos = self.position as int;

            let ghost pre_left = left@;
            left = Expr::BinaryOp { left: Box::new(left), op, right: Box::new(right) };
            proof {
                assert forall|f: nat| f as int >= pfuel(ts, i0, 1) implies spec_parse_expression(
                    ts,
                    i0,
                    mp,
                    f,
                ) == spec_climb(
                    ts,
                    self.position as int,
                    left@,
                    mp,
                    (f - 1 - (used + 1)) as nat,
                ) by {
                    let g = (f - 1 - used) as nat;
                    assert(g as int >= pfuel(ts, cur, 0));
                    assert((g - 1) as int >= pfuel(ts, cur + 1, 1));
                    assert(spec_parse_expression(
                        ts,
                        cur + 1,
                        spec_precedence(op) + 1,
                        (g - 1) as nat,
                    ) == Some(Ok::<(SpecExpr, int), SpecParseError>((rightv, jpos))));
                    assert(left@ == SpecExpr::Binary {
                        left: Box::new(pre_left),
                        op,
                        right: Box::new(rightv),
                    });
                    assert(spec_climb(ts, cur, pre_left, mp, g) == spec_climb(
                        ts,
                        jpos,
                        left@,
                        mp,
                        (g - 1) as nat,
                    ));
                }
                used = used + 1;
            }
        }

        Ok(left)
    }

    /// Parses the tokens into a program: statements separated by
    /// newlines, until the end of input. Empty input yields an empty
    /// program.
    #[verifier::rlimit(40)]
    pub fn parse(&mut self) -> (r: ParseResult<Program>)
        requires
            old(self).wf(),
        ensures
            final(self).wf(),
            final(self).tokens == old(self).tokens,
            old(self).position <= final(self).position,
            r is Ok ==> spec_at_end(final(self).tokens@, final(self).position as int),
            forall|fuel: nat|
                fuel as int >= pfuel(old(self).tokens@, old(self).position as int, 6)
                    ==> spec_parse_program(old(self).tokens@, old(self).position as int, fuel)
                    == spec_prog_outcome(r, final(self).position as int),
    {
        let ghost ts = self.tokens@;
        let ghost i0 = self.position as int;
        let mut statements: Vec<Statement> = Vec::new();

        self.skip_newlines();

        let ghost mut used: nat = 0;
        proof {
            lemma_stmts_view(statements@);
            assert(stmts_view(statements@) =~= Seq::<SpecStmt>::empty());
        }
        loop
            invariant_except_break
                forall|f: nat|
                    f as int >= pfuel(ts, i0, 6) ==> spec_parse_program(ts, i0, f)
                        == spec_prog_loop(
                        ts,
                        self.position as int,
                        stmts_view(statements@),
                        (f - 1 - used) as nat,
                    ),
                pfuel(ts, i0, 6) - 1 - used >= pfuel(ts, self.position as int, 5),
            invariant
                self.wf(),
                self.tokens == old(self).tokens,
                ts == old(self).tokens@,
                i0 == old(self).position as int,
                0 <= i0 <= (self.position as int) <= ts.len(),
            ensures
                self.wf(),
                self.tokens == old(self).tokens,
                i0 <= (self.position as int) <= ts.len(),
                spec_at_end(ts, self.position as int),
                forall|f: nat|
                    f as int >= pfuel(ts, i0, 6) ==> spec_parse_program(ts, i0, f) == Some(
                        Ok::<(Seq<SpecStmt>, int), SpecParseError>(
                            (stmts_view(statements@), self.position as int),
                        ),
                    ),
            decreases ts.len() - self.position,
        {
            let ghost cur = self.position as int;
            if self.is_at_end() {
                proof {
                    assert forall|f: nat| f as int >= pfuel(ts, i0, 6) implies spec_parse_program(
                        ts,
                        i0,
                        f,
                    ) == Some(
                        Ok::<(Seq<SpecStmt>, int), SpecParseError>(
                            (stmts_view(statements@), self.position as int),
                        ),
                    ) by {
                        let g = (f - 1 - used) as nat;
                        assert(g as int >= pfuel(ts, cur, 5));
                        assert(spec_prog_loop(ts, cur, stmts_view(statements@), g) == Some(
                            Ok::<(Seq<SpecStmt>, int), SpecParseError>(
                                (stmts_view(statements@), cur),
                            ),
                        ));
                    }
                }
                break;
            }
            let ghost pre_stmts = statements@;
            let stmt = match self.parse_statement() {
                Ok(st) => st,
                Err(e) => {
                    let ghost ev = e@;
                    let r = Err::<Program, ParseError>(e);
                    proof {
                        assert forall|f: nat| f as int >= pfuel(ts, i0, 6) implies
                            spec_parse_program(ts, i0, f) == spec_prog_outcome(
                            r,
                            self.position as int,
                        ) by {
                            let g = (f - 1 - used) as nat;
                            assert(g as int >= pfuel(ts, cur, 5));
                            assert((g - 1) as int >= pfuel(ts, cur, 4));
                            assert(spec_parse_statement(ts, cur, (g - 1) as nat) == Some(
                                Err::<(SpecStmt, int), SpecParseError>(ev),
                            ));
                        }
                    }
                    return r;
                },
            };
            let ghost stv = stmt@;
            let ghost jpos = self.position as int;
            statements.push(stmt);
            self.skip_newlines();
            proof {
                lemma_stmts_view(pre_stmts);
                lemma_stmts_view(statements@);
                assert(stmts_view(statements@) =~= stmts_view(pre_stmts).push(stv));
                assert forall|f: nat| f as int >= pfuel(ts, i0, 6) implies spec_parse_program(
                    ts,
                    i0,
                    f,
                ) == spec_prog_loop(
                    ts,
                    self.position as int,
                    stmts_view(statements@),
                    (f - 1 - (used + 1)) as nat,
                ) by {
                    let g = (f - 1 - used) as nat;
                    assert(g as int >= pfuel(ts, cur, 5));
                    assert((g - 1) as int >= pfuel(ts, cur, 4));
                    assert(spec_parse_statement(ts, cur, (g - 1) as nat) == Some(
                        Ok::<(SpecStmt, int), SpecParseError>((stv, jpos)),
                    ));
                    assert(spec_prog_loop(ts, cur, stmts_view(pre_stmts), g) == spec_prog_loop(
                        ts,
                        spec_skip_newlines(ts, jpos),
                        stmts_view(pre_stmts).push(stv),
                        (g - 1) as nat,
                    ));
                }
                used = used + 1;
            }
        }

        let r = Ok::<Program, ParseError>(Program { statements });
        proof {
            assert(r->Ok_0@ == stmts_view(r->Ok_0.statements@));
        }
        r
    }

    /// Parses a single statement, dispatching on its leading token.
    #[verifier::rlimit(60)]
    fn parse_statement(&mut self) -> (r: ParseResult<Statement>)
        requires
            old(self).wf(),
        ensures
            final(self).wf(),
            final(self).tokens == old(self).tokens,
            old(self).position <= final(self).position,
            r is Ok ==> old(self).position < final(self).position,
            forall|fuel: nat|
                fuel as int >= pfuel(old(self).tokens@, old(self).position as int, 4)
                    ==> spec_parse_statement(old(self).tokens@, old(self).position as int, fuel)
                    == spec_stmt_outcome(r, final(self).position as int),
        decreases old(self).tokens@.len() - old(self).position, 4int,
    {
        let ghost ts = self.tokens@;
        let ghost i0 = self.position as int;

        // Class definition
        let starts_class = match self.current_token() {
            Some(t) => matches!(t.token_type, TokenType::Class),
            None => false,
        };
        if starts_class {
            let r = self.parse_class_def();
            proof {
                assert forall|fuel: nat| fuel as int >= pfuel(ts, i0, 4) implies
                    spec_parse_statement(ts, i0, fuel) == spec_stmt_outcome(
                    r,
                    self.position as int,
                ) by {}
            }
            return r;
        }

        // Function or method definition
        let starts_fn = match self.current_token() {
            Some(t) => matches!(t.token_type, TokenType::Fn),
            None => false,
        };
        if starts_fn {
            let r = self.parse_function_or_method_def();
            proof {
                assert forall|fuel: nat| fuel as int >= pfuel(ts, i0, 4) implies
                    spec_parse_statement(ts, i0, fuel) == spec_stmt_outcome(
                    r,
                    self.position as int,
                ) by {
                    assert((fuel - 1) as int >= pfuel(ts, i0, 3));
                    assert(spec_parse_fndef(ts, i0, (fuel - 1) as nat) == spec_stmt_outcome(
                        r,
                        self.position as int,
                    ));
                }
            }
            return r;
        }

        // If statement
        let starts_if = match self.current_token() {
            Some(t) => matches!(t.token_type, TokenType::If),
            None => false,
        };
        if starts_if {
            let r = self.parse_if_statement();
            proof {
                assert forall|fuel: nat| fuel as int >= pfuel(ts, i0, 4) implies
                    spec_parse_statement(ts, i0, fuel) == spec_stmt_outcome(
                    r,
                    self.position as int,
                ) by {
                    assert((fuel - 1) as int >= pfuel(ts, i0, 3));
                    assert(spec_parse_if(ts, i0, (fuel - 1) as nat) == spec_stmt_outcome(
                        r,
                        self.position as int,
                    ));
                }
            }
            return r;
        }

        // While loop
        let starts_while = match self.current_token() {
            Some(t) => matches!(t.token_type, TokenType::While),
            None => false,
        };
        if starts_while {
            let r = self.parse_while_statement();
            proof {
                assert forall|fuel: nat| fuel as int >= pfuel(ts, i0, 4) implies
                    spec_parse_statement(ts, i0, fuel) == spec_stmt_outcome(
                    r,
                    self.position as int,
                ) by {
                    assert((fuel - 1) as int >= pfuel(ts, i0, 3));
                    assert(spec_parse_while(ts, i0, (fuel - 1) as nat) == spec_stmt_outcome(
                        r,
                        self.position as int,
                    ));
                }
            }
            return r;
        }

        // Plain assignment: identifier '=' expression
        if self.position < self.tokens.len() {
            if self.position + 1 < self.tokens.len() {
                let is_assign = matches!(
                    self.tokens[self.position].token_type,
                    TokenType::Identifier(_)
                ) && matches!(self.tokens[self.position + 1].token_type, TokenType::Equals);
                if is_assign {
                    let name = match &self.tokens[self.position].token_type {
                        TokenType::Identifier(n) => n.clone(),
                        _ => {
                            return Err(ParseError::UnexpectedEof {
                                expected: "identifier".to_owned(),
                            });
                        },
                    };
                    self.advance();  // consume the identifier
                    self.advance();  // consume '='
                    let value = match self.parse_expression(0) {
                        Ok(v) => v,
                        Err(e) => {
                            let ghost ev = e@;
                            let r = Err::<Statement, ParseError>(e);
                            proof {
                                assert forall|fuel: nat| fuel as int >= pfuel(ts, i0, 4) implies
                                    spec_parse_statement(ts, i0, fuel) == spec_stmt_outcome(
                                    r,
                                    self.position as int,
                                ) by {
                                    assert((fuel - 1) as int >= pfuel(ts, i0 + 2, 1));
                                    assert(spec_parse_expression(ts, i0 + 2, 0, (fuel - 1) as nat)
                                        == Some(Err::<(SpecExpr, int), SpecParseError>(ev)));
                                }
                            }
                            return r;
                        },
                    };
                    let ghost vv = value@;
                    let ghost jpos = self.position as int;

                    let trailing_newline = match self.current_token() {
                        Some(t) => matches!(t.token_type, TokenType::Newline),
                        None => false,
                    };
                    if trailing_newline {
                        self.advance();
                    }
                    let r = Ok::<Statement, ParseError>(Statement::Assignment { name, value });
                    proof {
                        assert forall|fuel: nat| fuel as int >= pfuel(ts, i0, 4) implies
                            spec_parse_statement(ts, i0, fuel) == spec_stmt_outcome(
                            r,
                            self.position as int,
                        ) by {
                            assert((fuel - 1) as int >= pfuel(ts, i0 + 2, 1));
                            assert(spec_parse_expression(ts, i0 + 2, 0, (fuel - 1) as nat)
                                == Some(Ok::<(SpecExpr, int), SpecParseError>((vv, jpos))));
                        }
                    }
                    return r;
                }
            }

            // Field assignment: 'self' '.' identifier '=' expression
            let is_self_assign = matches!(self.tokens[self.position].token_type, TokenType::Self_)
                && self.position + 1 < self.tokens.len() && matches!(
                self.tokens[self.position + 1].token_type,
                TokenType::Dot,
            ) && self.position + 2 < self.tokens.len() && matches!(
                self.tokens[self.position + 2].token_type,
                TokenType::Identifier(_),
            ) && self.position + 3 < self.tokens.len() && matches!(
                self.tokens[self.position + 3].token_type,
                TokenType::Equals,
            );
            if is_self_assign {
                let field = match &self.tokens[self.position + 2].token_type {
                    TokenType::Identifier(n) => n.clone(),
                    _ => {
                        return Err(ParseError::UnexpectedEof { expected: "identifier".to_owned() });
                    },
                };
                self.advance();  // consume 'self'
                self.advance();  // consume '.'
                self.advance();  // consume the field name
                self.advance();  // consume '='
                let value = match self.parse_expression(0) {
                    Ok(v) => v,
                    Err(e) => {
                        let ghost ev = e@;
                        let r = Err::<Statement, ParseError>(e);
                        proof {
                            assert forall|fuel: nat| fuel as int >= pfuel(ts, i0, 4) implies
                                spec_parse_statement(ts, i0, fuel) == spec_stmt_outcome(
                                r,
                                self.position as int,
                            ) by {
                                assert((fuel - 1) as int >= pfuel(ts, i0 + 4, 1));
                                assert(spec_parse_expression(ts, i0 + 4, 0, (fuel - 1) as nat)
                                    == Some(Err::<(SpecExpr, int), SpecParseError>(ev)));
                            }
                        }
                        return r;
                    },
                };
                let ghost vv = value@;
                let ghost jpos = self.position as int;

                let trailing_newline = match self.current_token() {
                    Some(t) => matches!(t.token_type, TokenType::Newline),
                    None => false,
                };
                if trailing_newline {
                    self.advance();
                }
                let mut name = String::new();
                name.append("self.");
                name.append(field.as_str());
                let r = Ok::<Statement, ParseError>(Statement::Assignment { name, value });
                proof {
                    reveal_strlit("self.");
                    assert forall|fuel: nat| fuel as int >= pfuel(ts, i0, 4) implies
                        spec_parse_statement(ts, i0, fuel) == spec_stmt_outcome(
                        r,
                        self.position as int,
                    ) by {
                        assert((fuel - 1) as int >= pfuel(ts, i0 + 4, 1));
                        assert(spec_parse_expression(ts, i0 + 4, 0, (fuel - 1) as nat) == Some(
                            Ok::<(SpecExpr, int), SpecParseError>((vv, jpos)),
                        ));
                        assert(Seq::<char>::empty() + "self."@ + field@ =~= "self."@ + field@);
                    }
                }
                return r;
            }
        }

        // Otherwise, an expression statement.
        let expr = match self.parse_expression(0) {
            Ok(e) => e,
            Err(e) => {
                let ghost ev = e@;
                let r = Err::<Statement, ParseError>(e);
                proof {
                    assert forall|fuel: nat| fuel as int >= pfuel(ts, i0, 4) implies
                        spec_parse_statement(ts, i0, fuel) == spec_stmt_outcome(
                        r,
                        self.position as int,
                    ) by {
                        assert((fuel - 1) as int >= pfuel(ts, i0, 1));
                        assert(spec_parse_expression(ts, i0, 0, (fuel - 1) as nat) == Some(
                            Err::<(SpecExpr, int), SpecParseError>(ev),
                        ));
                    }
                }
                return r;
            },
        };
        let ghost exv = expr@;
        let ghost jpos = self.position as int;

        let trailing_newline = match self.current_token() {
            Some(t) => matches!(t.token_type, TokenType::Newline),
            None => false,
        };
        if trailing_newline {
            self.advance();
        }
        let r = Ok::<Statement, ParseError>(Statement::Expression(expr));
        proof {
            assert forall|fuel: nat| fuel as int >= pfuel(ts, i0, 4) implies spec_parse_statement(
                ts,
                i0,
                fuel,
            ) == spec_stmt_outcome(r, self.position as int) by {
                assert((fuel - 1) as int >= pfuel(ts, i0, 1));
                assert(spec_parse_expression(ts, i0, 0, (fuel - 1) as nat) == Some(
                    Ok::<(SpecExpr, int), SpecParseError>((exv, jpos)),
                ));
            }
        }
        r
    }

    /// Parses a class definition: `class Name`.
    fn parse_class_def(&mut self) -> (r: ParseResult<Statement>)
        requires
            old(self).wf(),
            old(self).position < old(self).tokens@.len(),
            old(self).tokens@[old(self).position as int].token_type is Class,
        ensures
            final(self).wf(),
            final(self).tokens == old(self).tokens,
            old(self).position <= final(self).position,
            r is Ok ==> old(self).position < final(self).position,
            spec_parse_class_def(old(self).tokens@, old(self).position as int) == (match r {
                Ok(st) => Ok::<(SpecStmt, int), SpecParseError>(
                    (st@, final(self).position as int),
                ),
                Err(pe) => Err(pe@),
            }),
        decreases old(self).tokens@.len() - old(self).position, 0int,
    {
        let ghost ts = self.tokens@;
        let ghost i0 = self.position as int;
        self.advance();  // consume 'class'

        let name = match self.current_token() {
            Some(t) => {
                match &t.token_type {
                    TokenType::Identifier(n) => {
                        let n = n.clone();
                        n
                    },
                    _ => {
                        return Err(ParseError::UnexpectedToken {
                            expected: "class name".to_owned(),
                            found: t.clone(),
                        });
                    },
                }
            },
            None => {
                return Err(ParseError::UnexpectedEof { expected: "class name".to_owned() });
            },
        };
        self.advance();  // consume the class name

        let trailing_newline = match self.current_token() {
            Some(t) => matches!(t.token_type, TokenType::Newline),
            None => false,
        };
        if trailing_newline {
            self.advance();
        }
        Ok(Statement::ClassDef { name })
    }

    /// Parses a function or method definition:
    /// `fn name(params) { body }` or `fn ClassName > methodName(params) { body }`.
    #[verifier::rlimit(40)]
    fn parse_function_or_method_def(&mut self) -> (r: ParseResult<Statement>)
        requires
            old(self).wf(),
            old(self).position < old(self).tokens@.len(),
            old(self).tokens@[old(self).position as int].token_type is Fn,
        ensures
            final(self).wf(),
            final(self).tokens == old(self).tokens,
            old(self).position <= final(self).position,
            r is Ok ==> old(self).position < final(self).position,
            forall|fuel: nat|
                fuel as int >= pfuel(old(self).tokens@, old(self).position as int, 3)
                    ==> spec_parse_fndef(old(self).tokens@, old(self).position as int, fuel)
                    == spec_stmt_outcome(r, final(self).position as int),
        decreases old(self).tokens@.len() - old(self).position, 3int,
    {
        let ghost ts = self.tokens@;
        let ghost i0 = self.position as int;
        self.advance();  // consume 'fn'

        // The first identifier: a function name, or a class name.
        let first_name = match self.current_token() {
            Some(t) => {
                match &t.token_type {
                    TokenType::Identifier(n) => {
                        let n = n.clone();
                        n
                    },
                    _ => {
                        return Err(ParseError::UnexpectedToken {
                            expected: "function or class name".to_owned(),
                            found: t.clone(),
                        });
                    },
                }
            },
            None => {
                return Err(ParseError::UnexpectedEof {
                    expected: "function or class name".to_owned(),
                });
            },
        };
        self.advance();  // consume the name

        // A following '>' makes this a method definition.
        let is_method = match self.current_token() {
            Some(t) => matches!(t.token_type, TokenType::GreaterThan),
            None => false,
        };
        if is_method {
            self.advance();  // consume '>'

            let method_name = match self.current_token() {
                Some(t) => {
                    match &t.token_type {
                        TokenType::Identifier(n) => {
                            let n = n.clone();
                            n
                        },
                        _ => {
                            return Err(ParseError::UnexpectedToken {
                                expected: "method name".to_owned(),
                                found: t.clone(),
                            });
                        },
                    }
                },
                None => {
                    return Err(ParseError::UnexpectedEof { expected: "method name".to_owned() });
                },
            };
            self.advance();  // consume the method name

            match self.parse_function_params_and_body() {
                Ok(pb) => {
                    let ghost pv = params_view(pb.0@);
                    let ghost bv = stmts_view(pb.1@);
                    let (params, body) = pb;
                    let r = Ok::<Statement, ParseError>(
                        Statement::MethodDef {
                            class_name: first_name,
                            method_name,
                            params,
                            body,
                        },
                    );
                    proof {
                        assert forall|fuel: nat| fuel as int >= pfuel(ts, i0, 3) implies
                            spec_parse_fndef(ts, i0, fuel) == spec_stmt_outcome(
                            r,
                            self.position as int,
                        ) by {
                            assert((fuel - 1) as int >= pfuel(ts, i0 + 4, 3));
                            assert(spec_params_body(ts, i0 + 4, (fuel - 1) as nat) == Some(
                                Ok::<((Seq<Seq<char>>, Seq<SpecStmt>), int), SpecParseError>(
                                    ((pv, bv), self.position as int),
                                ),
                            ));
                        }
                    }
                    return r;
                },
                Err(e) => {
                    let ghost ev = e@;
                    let r = Err::<Statement, ParseError>(e);
                    proof {
                        assert forall|fuel: nat| fuel as int >= pfuel(ts, i0, 3) implies
                            spec_parse_fndef(ts, i0, fuel) == spec_stmt_outcome(
                            r,
                            self.position as int,
                        ) by {
                            assert((fuel - 1) as int >= pfuel(ts, i0 + 4, 3));
                            assert(spec_params_body(ts, i0 + 4, (fuel - 1) as nat) == Some(
                                Err::<((Seq<Seq<char>>, Seq<SpecStmt>), int), SpecParseError>(ev),
                            ));
                        }
                    }
                    return r;
                },
            }
        }

        match self.parse_function_params_and_body() {
            Ok(pb) => {
                let ghost pv = params_view(pb.0@);
                let ghost bv = stmts_view(pb.1@);
                let (params, body) = pb;
                let r = Ok::<Statement, ParseError>(
                    Statement::FunctionDef { name: first_name, params, body },
                );
                proof {
                    assert forall|fuel: nat| fuel as int >= pfuel(ts, i0, 3) implies
                        spec_parse_fndef(ts, i0, fuel) == spec_stmt_outcome(
                        r,
                        self.position as int,
                    ) by {
                        assert((fuel - 1) as int >= pfuel(ts, i0 + 2, 3));
                        assert(spec_params_body(ts, i0 + 2, (fuel - 1) as nat) == Some(
                            Ok::<((Seq<Seq<char>>, Seq<SpecStmt>), int), SpecParseError>(
                                ((pv, bv), self.position as int),
                            ),
                        ));
                    }
                }
                r
            },
            Err(e) => {
                let ghost ev = e@;
                let r = Err::<Statement, ParseError>(e);
                proof {
                    assert forall|fuel: nat| fuel as int >= pfuel(ts, i0, 3) implies
                        spec_parse_fndef(ts, i0, fuel) == spec_stmt_outcome(
                        r,
                        self.position as int,
                    ) by {
                        assert((fuel - 1) as int >= pfuel(ts, i0 + 2, 3));
                        assert(spec_params_body(ts, i0 + 2, (fuel - 1) as nat) == Some(
                            Err::<((Seq<Seq<char>>, Seq<SpecStmt>), int), SpecParseError>(ev),
                        ));
                    }
                }
                r
            },
        }
    }

    /// Parses the parameters of a parenthesized parameter list; the
    /// cursor stands just past the opening parenthesis, and ends just
    /// past the closing one. Newlines are allowed between the tokens.
    fn parse_params(&mut self) -> (r: ParseResult<Vec<String>>)
        requires
            old(self).wf(),
        ensures
            final(self).wf(),
            final(self).tokens == old(self).tokens,
            old(self).position <= final(self).position,
            r is Ok ==> old(self).position < final(self).position,
            forall|fuel: nat|
                fuel as int >= pfuel(old(self).tokens@, old(self).position as int, 2)
                    ==> spec_params_loop(
                    old(self).tokens@,
                    old(self).position as int,
                    Seq::empty(),
                    fuel,
                ) == Some(
                    match r {
                        Ok(v) => Ok::<(Seq<Seq<char>>, int), SpecParseError>(
                            (params_view(v@), final(self).position as int),
                        ),
                        Err(pe) => Err(pe@),
                    },
                ),
        decreases old(self).tokens@.len() - old(self).position, 1int,
    {
        let ghost ts = self.tokens@;
        let ghost i0 = self.position as int;
        let mut params: Vec<String> = Vec::new();
        let ghost mut used: nat = 0;
        proof {
            assert(params_view(params@) =~= Seq::<Seq<char>>::empty());
        }
        loop
            invariant_except_break
                forall|f: nat|
                    f as int >= pfuel(ts, i0, 2) ==> spec_params_loop(ts, i0, Seq::empty(), f)
                        == spec_params_loop(
                        ts,
                        self.position as int,
                        params_view(params@),
                        (f - used) as nat,
                    ),
                pfuel(ts, i0, 2) - used >= pfuel(ts, self.position as int, 0),
            invariant
                self.wf(),
                self.tokens == old(self).tokens,
                ts == old(self).tokens@,
                i0 == old(self).position as int,
                0 <= i0 <= (self.position as int) <= ts.len(),
            ensures
                self.wf(),
                self.tokens == old(self).tokens,
                i0 < (self.position as int) <= ts.len(),
                forall|f: nat|
                    f as int >= pfuel(ts, i0, 2) ==> spec_params_loop(ts, i0, Seq::empty(), f)
                        == Some(
                        Ok::<(Seq<Seq<char>>, int), SpecParseError>(
                            (params_view(params@), self.position as int),
                        ),
                    ),
            decreases ts.len() - self.position,
        {
            let ghost cur = self.position as int;
            // Newlines are allowed between the parameter-list tokens.
            self.skip_newlines();
            let ghost jn = self.position as int;

            match self.current_token() {
                Some(t) => {
                    if matches!(t.token_type, TokenType::RightParen) {
                        self.advance();
                        proof {
                            assert forall|f: nat| f as int >= pfuel(ts, i0, 2) implies
                                spec_params_loop(ts, i0, Seq::empty(), f) == Some(
                                Ok::<(Seq<Seq<char>>, int), SpecParseError>(
                                    (params_view(params@), self.position as int),
                                ),
                            ) by {
                                let g = (f - used) as nat;
                                assert(g as int >= pfuel(ts, cur, 0));
                                assert(spec_params_loop(ts, cur, params_view(params@), g)
                                    == Some(
                                    Ok::<(Seq<Seq<char>>, int), SpecParseError>(
                                        (params_view(params@), jn + 1),
                                    ),
                                ));
                            }
                        }
                        break;
                    }
                    match &t.token_type {
                        TokenType::Identifier(pn) => {
                            let pn = pn.clone();
                            let ghost pre_params = params@;
                            params.push(pn);
                            self.advance();

                            self.skip_newlines();
                            let ghost kn = self.position as int;
                            proof {
                                assert(params_view(params@) =~= params_view(pre_params).push(
                                    ts[jn].token_type->Identifier_0@,
                                ));
                            }
                            match self.current_token() {
                                Some(t2) => {
                                    if matches!(t2.token_type, TokenType::Comma) {
                                        self.advance();
                                        proof {
                                            assert forall|f: nat| f as int >= pfuel(ts, i0, 2)
                                                implies spec_params_loop(
                                                ts,
                                                i0,
                                                Seq::empty(),
                                                f,
                                            ) == spec_params_loop(
                                                ts,
                                                self.position as int,
                                                params_view(params@),
                                                (f - (used + 1)) as nat,
                                            ) by {
                                                let g = (f - used) as nat;
                                                assert(g as int >= pfuel(ts, cur, 0));
                                                assert(spec_params_loop(
                                                    ts,
                                                    cur,
                                                    params_view(pre_params),
                                                    g,
                                                ) == spec_params_loop(
                                                    ts,
                                                    kn + 1,
                                                    params_view(params@),
                                                    (g - 1) as nat,
                                                ));
                                            }
                                            used = used + 1;
                                        }
                                    } else if matches!(t2.token_type, TokenType::RightParen) {
                                        self.advance();
                                        proof {
                                            assert forall|f: nat| f as int >= pfuel(ts, i0, 2)
                                                implies spec_params_loop(
                                                ts,
                                                i0,
                                                Seq::empty(),
                                                f,
                                            ) == Some(
                                                Ok::<(Seq<Seq<char>>, int), SpecParseError>(
                                                    (params_view(params@), self.position as int),
                                                ),
                                            ) by {
                                                let g = (f - used) as nat;
                                                assert(g as int >= pfuel(ts, cur, 0));
                                                assert(spec_params_loop(
                                                    ts,
                                                    cur,
                                                    params_view(pre_params),
                                                    g,
                                                ) == Some(
                                                    Ok::<(Seq<Seq<char>>, int), SpecParseError>(
                                                        (params_view(params@), kn + 1),
                                                    ),
                                                ));
                                            }
                                        }
                                        break;
                                    } else {
                                        let r = Err::<Vec<String>, ParseError>(
                                            ParseError::UnexpectedToken {
                                                expected: "',' or ')'".to_owned(),
                                                found: t2.clone(),
                                            },
                                        );
                                        proof {
                                            assert forall|f: nat| f as int >= pfuel(ts, i0, 2)
                                                implies spec_params_loop(
                                                ts,
                                                i0,
                                                Seq::empty(),
                                                f,
                                            ) == Some(
                                                match r {
                                                    Ok(v) => Ok::<
                                                        (Seq<Seq<char>>, int),
                                                        SpecParseError,
                                                    >((params_view(v@), self.position as int)),
                                                    Err(pe) => Err(pe@),
                                                },
                                            ) by {
                                                let g = (f - used) as nat;
                                                assert(g as int >= pfuel(ts, cur, 0));
                                            }
                                        }
                                        return r;
                                    }
                                },
                                None => {
                                    let r = Err::<Vec<String>, ParseError>(
                                        ParseError::UnexpectedEof {
                                            expected: "',' or ')'".to_owned(),
                                        },
                                    );
                                    proof {
                                        assert forall|f: nat| f as int >= pfuel(ts, i0, 2)
                                            implies spec_params_loop(ts, i0, Seq::empty(), f)
                                            == Some(
                                            match r {
                                                Ok(v) => Ok::<(Seq<Seq<char>>, int), SpecParseError>(
                                                    (params_view(v@), self.position as int),
                                                ),
                                                Err(pe) => Err(pe@),
                                            },
                                        ) by {
                                            let g = (f - used) as nat;
                                            assert(g as int >= pfuel(ts, cur, 0));
                                        }
                                    }
                                    return r;
                                },
                            }
                        },
                        _ => {
                            let r = Err::<Vec<String>, ParseError>(
                                ParseError::UnexpectedToken {
                                    expected: "parameter name".to_owned(),
                                    found: t.clone(),
                                },
                            );
                            proof {
                                assert forall|f: nat| f as int >= pfuel(ts, i0, 2) implies
                                    spec_params_loop(ts, i0, Seq::empty(), f) == Some(
                                    match r {
                                        Ok(v) => Ok::<(Seq<Seq<char>>, int), SpecParseError>(
                                            (params_view(v@), self.position as int),
                                        ),
                                        Err(pe) => Err(pe@),
                                    },
                                ) by {
                                    let g = (f - used) as nat;
                                    assert(g as int >= pfuel(ts, cur, 0));
                                }
                            }
                            return r;
                        },
                    }
                },
                None => {
                    let r = Err::<Vec<String>, ParseError>(
                        ParseError::UnexpectedEof { expected: "')' or parameter name".to_owned() },
                    );
                    proof {
                        assert forall|f: nat| f as int >= pfuel(ts, i0, 2) implies
                            spec_params_loop(ts, i0, Seq::empty(), f) == Some(
                            match r {
                                Ok(v) => Ok::<(Seq<Seq<char>>, int), SpecParseError>(
                                    (params_view(v@), self.position as int),
                                ),
                                Err(pe) => Err(pe@),
                            },
                        ) by {
                            let g = (f - used) as nat;
                            assert(g as int >= pfuel(ts, cur, 0));
                        }
                    }
                    return r;
                },
            }
        }
        Ok(params)
    }

    /// Parses an optional parenthesized parameter list followed by a
    /// brace-delimited body (shared by functions and methods).
    fn parse_function_params_and_body(&mut self) -> (r: ParseResult<(Vec<String>, Vec<Statement>)>)
        requires
            old(self).wf(),
        ensures
            final(self).wf(),
            final(self).tokens == old(self).tokens,
            old(self).position <= final(self).position,
            r is Ok ==> old(self).position < final(self).position,
            forall|fuel: nat|
                fuel as int >= pfuel(old(self).tokens@, old(self).position as int, 3)
                    ==> spec_params_body(old(self).tokens@, old(self).position as int, fuel)
                    == spec_pb_outcome(r, final(self).position as int),
        decreases old(self).tokens@.len() - old(self).position, 2int,
    {
        let ghost ts = self.tokens@;
        let ghost i0 = self.position as int;

        // Without a '(', the parameter list is empty and the body follows.
        let has_parens = match self.current_token() {
            Some(t) => matches!(t.token_type, TokenType::LeftParen),
            None => false,
        };
        if !has_parens {
            match self.current_token() {
                Some(_) => {
                    self.skip_newlines();
                    let ghost bstart = self.position as int;
                    match self.parse_function_body() {
                        Ok(body) => {
                            let ghost bv = stmts_view(body@);
                            let r = Ok::<(Vec<String>, Vec<Statement>), ParseError>(
                                (Vec::new(), body),
                            );
                            proof {
                                assert(params_view(Seq::<String>::empty())
                                    =~= Seq::<Seq<char>>::empty());
                                assert forall|fuel: nat| fuel as int >= pfuel(ts, i0, 3) implies
                                    spec_params_body(ts, i0, fuel) == spec_pb_outcome(
                                    r,
                                    self.position as int,
                                ) by {
                                    assert((fuel - 1) as int >= pfuel(ts, bstart, 2));
                                    assert(spec_parse_body(ts, bstart, (fuel - 1) as nat) == Some(
                                        Ok::<(Seq<SpecStmt>, int), SpecParseError>(
                                            (bv, self.position as int),
                                        ),
                                    ));
                                }
                            }
                            return r;
                        },
                        Err(e) => {
                            let ghost ev = e@;
                            let r = Err::<(Vec<String>, Vec<Statement>), ParseError>(e);
                            proof {
                                assert forall|fuel: nat| fuel as int >= pfuel(ts, i0, 3) implies
                                    spec_params_body(ts, i0, fuel) == spec_pb_outcome(
                                    r,
                                    self.position as int,
                                ) by {
                                    assert((fuel - 1) as int >= pfuel(ts, bstart, 2));
                                    assert(spec_parse_body(ts, bstart, (fuel - 1) as nat) == Some(
                                        Err::<(Seq<SpecStmt>, int), SpecParseError>(ev),
                                    ));
                                }
                            }
                            return r;
                        },
                    }
                },
                None => {
                    return Err(ParseError::UnexpectedEof { expected: "'('".to_owned() });
                },
            }
        }
        self.advance();  // consume '('

        let params = match self.parse_params() {
            Ok(ps) => ps,
            Err(e) => {
                let ghost ev = e@;
                let r = Err::<(Vec<String>, Vec<Statement>), ParseError>(e);
                proof {
                    assert forall|fuel: nat| fuel as int >= pfuel(ts, i0, 3) implies
                        spec_params_body(ts, i0, fuel) == spec_pb_outcome(
                        r,
                        self.position as int,
                    ) by {
                        assert((fuel - 1) as int >= pfuel(ts, i0 + 1, 2));
                        assert(spec_params_loop(ts, i0 + 1, Seq::empty(), (fuel - 1) as nat)
                            == Some(Err::<(Seq<Seq<char>>, int), SpecParseError>(ev)));
                    }
                }
                return r;
            },
        };
        let ghost pv = params_view(params@);
        let ghost jpos = self.position as int;

        self.skip_newlines();
        let ghost bstart = self.position as int;

        match self.parse_function_body() {
            Ok(body) => {
                let ghost bv = stmts_view(body@);
                let r = Ok::<(Vec<String>, Vec<Statement>), ParseError>((params, body));
                proof {
                    assert forall|fuel: nat| fuel as int >= pfuel(ts, i0, 3) implies
                        spec_params_body(ts, i0, fuel) == spec_pb_outcome(
                        r,
                        self.position as int,
                    ) by {
                        assert((fuel - 1) as int >= pfuel(ts, i0 + 1, 2));
                        assert(spec_params_loop(ts, i0 + 1, Seq::empty(), (fuel - 1) as nat)
                            == Some(
                            Ok::<(Seq<Seq<char>>, int), SpecParseError>((pv, jpos)),
                        ));
                        assert((fuel - 1) as int >= pfuel(ts, bstart, 2));
                        assert(spec_parse_body(ts, bstart, (fuel - 1) as nat) == Some(
                            Ok::<(Seq<SpecStmt>, int), SpecParseError>(
                                (bv, self.position as int),
                            ),
                        ));
                    }
                }
                r
            },
            Err(e) => {
                let ghost ev = e@;
                let r = Err::<(Vec<String>, Vec<Statement>), ParseError>(e);
                proof {
                    assert forall|fuel: nat| fuel as int >= pfuel(ts, i0, 3) implies
                        spec_params_body(ts, i0, fuel) == spec_pb_outcome(
                        r,
                        self.position as int,
                    ) by {
                        assert((fuel - 1) as int >= pfuel(ts, i0 + 1, 2));
                        assert(spec_params_loop(ts, i0 + 1, Seq::empty(), (fuel - 1) as nat)
                            == Some(
                            Ok::<(Seq<Seq<char>>, int), SpecParseError>((pv, jpos)),
                        ));
                        assert((fuel - 1) as int >= pfuel(ts, bstart, 2));
                        assert(spec_parse_body(ts, bstart, (fuel - 1) as nat) == Some(
                            Err::<(Seq<SpecStmt>, int), SpecParseError>(ev),
                        ));
                    }
                }
                r
            },
        }
    }

    /// Parses a brace-delimited sequence of statements.
    #[verifier::rlimit(40)]
    fn parse_block(&mut self) -> (r: ParseResult<Vec<Statement>>)
        requires
            old(self).wf(),
        ensures
            final(self).wf(),
            final(self).tokens == old(self).tokens,
            old(self).position <= final(self).position,
            r is Ok ==> old(self).position < final(self).position,
            forall|fuel: nat|
                fuel as int >= pfuel(old(self).tokens@, old(self).position as int, 1)
                    ==> spec_parse_block(old(self).tokens@, old(self).position as int, fuel)
                    == spec_block_outcome(r, final(self).position as int),
        decreases old(self).tokens@.len() - old(self).position, 0int,
    {
        let ghost ts = self.tokens@;
        let ghost i0 = self.position as int;

        match self.current_token() {
            Some(t) => {
                if !matches!(t.token_type, TokenType::LeftBrace) {
                    return Err(ParseError::UnexpectedToken {
                        expected: "'{'".to_owned(),
                        found: t.clone(),
                    });
                }
            },
            None => {
                return Err(ParseError::UnexpectedEof { expected: "'{'".to_owned() });
            },
        }
        self.advance();  // consume '{'

        let mut body: Vec<Statement> = Vec::new();
        self.skip_newlines();

        let ghost mut used: nat = 0;
        proof {
            lemma_stmts_view(body@);
            assert(stmts_view(body@) =~= Seq::<SpecStmt>::empty());
        }

        loop
            invariant_except_break
                forall|f: nat|
                    f as int >= pfuel(ts, i0, 1) ==> spec_parse_block(ts, i0, f)
                        == spec_block_loop(
                        ts,
                        self.position as int,
                        stmts_view(body@),
                        (f - 1 - used) as nat,
                    ),
                pfuel(ts, i0, 1) - 1 - used >= pfuel(ts, self.position as int, 5),
            invariant
                self.wf(),
                self.tokens == old(self).tokens,
                ts == old(self).tokens@,
                i0 == old(self).position as int,
                0 <= i0 < (self.position as int) <= ts.len(),
            ensures
                self.wf(),
                self.tokens == old(self).tokens,
                i0 < (self.position as int) <= ts.len(),
                forall|f: nat|
                    f as int >= pfuel(ts, i0, 1) ==> spec_parse_block(ts, i0, f) == Some(
                        Ok::<(Seq<SpecStmt>, int), SpecParseError>(
                            (stmts_view(body@), self.position as int),
                        ),
                    ),
            decreases ts.len() - self.position,
        {
            let ghost cur = self.position as int;
            match self.current_token() {
                Some(t) => {
                    if matches!(t.token_type, TokenType::RightBrace) {
                        self.advance();
                        proof {
                            assert forall|f: nat| f as int >= pfuel(ts, i0, 1) implies
                                spec_parse_block(ts, i0, f) == Some(
                                Ok::<(Seq<SpecStmt>, int), SpecParseError>(
                                    (stmts_view(body@), self.position as int),
                                ),
                            ) by {
                                let g = (f - 1 - used) as nat;
                                assert(g as int >= pfuel(ts, cur, 5));
                                assert(spec_block_loop(ts, cur, stmts_view(body@), g) == Some(
                                    Ok::<(Seq<SpecStmt>, int), SpecParseError>(
                                        (stmts_view(body@), cur + 1),
                                    ),
                                ));
                            }
                        }
                        break;
                    }
                },
                None => {
                    let r = Err::<Vec<Statement>, ParseError>(
                        ParseError::UnexpectedEof { expected: "'}'".to_owned() },
                    );
                    proof {
                        assert forall|f: nat| f as int >= pfuel(ts, i0, 1) implies
                            spec_parse_block(ts, i0, f) == spec_block_outcome(
                            r,
                            self.position as int,
                        ) by {
                            let g = (f - 1 - used) as nat;
                            assert(g as int >= pfuel(ts, cur, 5));
                        }
                    }
                    return r;
                },
            }
            let ghost pre_body = body@;
            let stmt = match self.parse_statement() {
                Ok(st) => st,
                Err(e) => {
                    let ghost ev = e@;
                    let r = Err::<Vec<Statement>, ParseError>(e);
                    proof {
                        assert forall|f: nat| f as int >= pfuel(ts, i0, 1) implies
                            spec_parse_block(ts, i0, f) == spec_block_outcome(
                            r,
                            self.position as int,
                        ) by {
                            let g = (f - 1 - used) as nat;
                            assert(g as int >= pfuel(ts, cur, 5));
                            assert((g - 1) as int >= pfuel(ts, cur, 4));
                            assert(spec_parse_statement(ts, cur, (g - 1) as nat) == Some(
                                Err::<(SpecStmt, int), SpecParseError>(ev),
                            ));
                            assert(r->Err_0@ == ev);
                        }
                    }
                    return r;
                },
            };
            let ghost stv = stmt@;
            let ghost jpos = self.position as int;
            body.push(stmt);
            self.skip_newlines();
            proof {
                lemma_stmts_view(pre_body);
                lemma_stmts_view(body@);
                assert(stmts_view(body@) =~= stmts_view(pre_body).push(stv));
                assert forall|f: nat| f as int >= pfuel(ts, i0, 1) implies spec_parse_block(
                    ts,
                    i0,
                    f,
                ) == spec_block_loop(
                    ts,
                    self.position as int,
                    stmts_view(body@),
                    (f - 1 - (used + 1)) as nat,
                ) by {
                    let g = (f - 1 - used) as nat;
                    assert(g as int >= pfuel(ts, cur, 5));
                    assert((g - 1) as int >= pfuel(ts, cur, 4));
                    assert(spec_parse_statement(ts, cur, (g - 1) as nat) == Some(
                        Ok::<(SpecStmt, int), SpecParseError>((stv, jpos)),
                    ));
                    assert(spec_block_loop(ts, cur, stmts_view(pre_body), g) == spec_block_loop(
                        ts,
                        spec_skip_newlines(ts, jpos),
                        stmts_view(pre_body).push(stv),
                        (g - 1) as nat,
                    ));
                }
                used = used + 1;
            }
        }

        Ok(body)
    }

    /// Parses a function body (the statements between `{` and `}`),
    /// consuming one trailing newline if present.
    fn parse_function_body(&mut self) -> (r: ParseResult<Vec<Statement>>)
        requires
            old(self).wf(),
        ensures
            final(self).wf(),
            final(self).tokens == old(self).tokens,
            old(self).position <= final(self).position,
            r is Ok ==> old(self).position < final(self).position,
            forall|fuel: nat|
                fuel as int >= pfuel(old(self).tokens@, old(self).position as int, 2)
                    ==> spec_parse_body(old(self).tokens@, old(self).position as int, fuel)
                    == spec_block_outcome(r, final(self).position as int),
        decreases old(self).tokens@.len() - old(self).position, 1int,
    {
        let ghost ts = self.tokens@;
        let ghost i0 = self.position as int;
        let body = match self.parse_block() {
            Ok(b) => b,
            Err(e) => {
                let ghost ev = e@;
                let r = Err::<Vec<Statement>, ParseError>(e);
                proof {
                    assert forall|fuel: nat| fuel as int >= pfuel(ts, i0, 2) implies
                        spec_parse_body(ts, i0, fuel) == spec_block_outcome(
                        r,
                        self.position as int,
                    ) by {
                        assert((fuel - 1) as int >= pfuel(ts, i0, 1));
                        assert(spec_parse_block(ts, i0, (fuel - 1) as nat) == Some(
                            Err::<(Seq<SpecStmt>, int), SpecParseError>(ev),
                        ));
                        assert(r->Err_0@ == ev);
                    }
                }
                return r;
            },
        };
        let ghost bv = stmts_view(body@);
        let ghost jpos = self.position as int;

        let trailing_newline = match self.current_token() {
            Some(t) => matches!(t.token_type, TokenType::Newline),
            None => false,
        };
        if trailing_newline {
            self.advance();
        }
        proof {
            assert forall|fuel: nat| fuel as int >= pfuel(ts, i0, 2) implies spec_parse_body(
                ts,
                i0,
                fuel,
            ) == spec_block_outcome(Ok(body), self.position as int) by {
                assert((fuel - 1) as int >= pfuel(ts, i0, 1));
                assert(spec_parse_block(ts, i0, (fuel - 1) as nat) == Some(
                    Ok::<(Seq<SpecStmt>, int), SpecParseError>((bv, jpos)),
                ));
            }
        }
        Ok(body)
    }

    /// Parses the elif branches that follow an if statement's then
    /// branch: zero or more `elif` condition-and-block pairs.
    fn parse_elif_branches(&mut self) -> (r: ParseResult<Vec<(Expr, Vec<Statement>)>>)
        requires
            old(self).wf(),
        ensures
            final(self).wf(),
            final(self).tokens == old(self).tokens,
            old(self).position <= final(self).position,
            forall|fuel: nat|
                fuel as int >= pfuel(old(self).tokens@, old(self).position as int, 2)
                    ==> spec_elif_loop(
                    old(self).tokens@,
                    old(self).position as int,
                    Seq::empty(),
                    fuel,
                ) == Some(
                    match r {
                        Ok(v) => Ok::<(Seq<(SpecExpr, Seq<SpecStmt>)>, int), SpecParseError>(
                            (elifs_view(v@), final(self).position as int),
                        ),
                        Err(pe) => Err(pe@),
                    },
                ),
        decreases old(self).tokens@.len() - old(self).position, 2int,
    {
        let ghost ts = self.tokens@;
        let ghost i0 = self.position as int;
        let mut elif_branches: Vec<(Expr, Vec<Statement>)> = Vec::new();
        let ghost mut used: nat = 0;
        proof {
            lemma_elifs_view(elif_branches@);
            assert(elifs_view(elif_branches@) =~= Seq::<(SpecExpr, Seq<SpecStmt>)>::empty());
        }
        loop
            invariant_except_break
                forall|f: nat|
                    f as int >= pfuel(ts, i0, 2) ==> spec_elif_loop(ts, i0, Seq::empty(), f)
                        == spec_elif_loop(
                        ts,
                        self.position as int,
                        elifs_view(elif_branches@),
                        (f - used) as nat,
                    ),
                pfuel(ts, i0, 2) - used >= pfuel(ts, self.position as int, 0),
            invariant
                self.wf(),
                self.tokens == old(self).tokens,
                ts == old(self).tokens@,
                i0 == old(self).position as int,
                0 <= i0 <= (self.position as int) <= ts.len(),
            ensures
                self.wf(),
                self.tokens == old(self).tokens,
                i0 <= (self.position as int) <= ts.len(),
                forall|f: nat|
                    f as int >= pfuel(ts, i0, 2) ==> spec_elif_loop(ts, i0, Seq::empty(), f)
                        == Some(
                        Ok::<(Seq<(SpecExpr, Seq<SpecStmt>)>, int), SpecParseError>(
                            (elifs_view(elif_branches@), self.position as int),
                        ),
                    ),
            decreases ts.len() - self.position,
        {
            let ghost cur = self.position as int;
            let is_elif = match self.current_token() {
                Some(t) => matches!(t.token_type, TokenType::Elif),
                None => false,
            };
            if !is_elif {
                proof {
                    assert forall|f: nat| f as int >= pfuel(ts, i0, 2) implies spec_elif_loop(
                        ts,
                        i0,
                        Seq::empty(),
                        f,
                    ) == Some(
                        Ok::<(Seq<(SpecExpr, Seq<SpecStmt>)>, int), SpecParseError>(
                            (elifs_view(elif_branches@), self.position as int),
                        ),
                    ) by {
                        let g = (f - used) as nat;
                        assert(g as int >= pfuel(ts, cur, 0));
                        assert(spec_elif_loop(ts, cur, elifs_view(elif_branches@), g) == Some(
                            Ok::<(Seq<(SpecExpr, Seq<SpecStmt>)>, int), SpecParseError>(
                                (elifs_view(elif_branches@), cur),
                            ),
                        ));
                    }
                }
                break;
            }
            self.advance();  // consume 'elif'

            let elif_condition = match self.parse_expression(0) {
                Ok(c) => c,
                Err(e) => {
                    let ghost ev = e@;
                    let r = Err::<Vec<(Expr, Vec<Statement>)>, ParseError>(e);
                    proof {
                        assert forall|f: nat| f as int >= pfuel(ts, i0, 2) implies spec_elif_loop(
                            ts,
                            i0,
                            Seq::empty(),
                            f,
                        ) == Some(
                            match r {
                                Ok(v) => Ok::<
                                    (Seq<(SpecExpr, Seq<SpecStmt>)>, int),
                                    SpecParseError,
                                >((elifs_view(v@), self.position as int)),
                                Err(pe) => Err(pe@),
                            },
                        ) by {
                            let g = (f - used) as nat;
                            assert(g as int >= pfuel(ts, cur, 0));
                            assert((g - 1) as int >= pfuel(ts, cur + 1, 1));
                            assert(spec_parse_expression(ts, cur + 1, 0, (g - 1) as nat) == Some(
                                Err::<(SpecExpr, int), SpecParseError>(ev),
                            ));
                        }
                    }
                    return r;
                },
            };
            let ghost ecv = elif_condition@;
            let ghost ejpos = self.position as int;

            self.skip_newlines();
            let ghost ebstart = self.position as int;
            let elif_body = match self.parse_block() {
                Ok(b) => b,
                Err(e) => {
                    let ghost ev = e@;
                    let r = Err::<Vec<(Expr, Vec<Statement>)>, ParseError>(e);
                    proof {
                        assert forall|f: nat| f as int >= pfuel(ts, i0, 2) implies spec_elif_loop(
                            ts,
                            i0,
                            Seq::empty(),
                            f,
                        ) == Some(
                            match r {
                                Ok(v) => Ok::<
                                    (Seq<(SpecExpr, Seq<SpecStmt>)>, int),
                                    SpecParseError,
                                >((elifs_view(v@), self.position as int)),
                                Err(pe) => Err(pe@),
                            },
                        ) by {
                            let g = (f - used) as nat;
                            assert(g as int >= pfuel(ts, cur, 0));
                            assert((g - 1) as int >= pfuel(ts, cur + 1, 1));
                            assert(spec_parse_expression(ts, cur + 1, 0, (g - 1) as nat) == Some(
                                Ok::<(SpecExpr, int), SpecParseError>((ecv, ejpos)),
                            ));
                            assert((g - 1) as int >= pfuel(ts, ebstart, 1));
                            assert(spec_parse_block(ts, ebstart, (g - 1) as nat) == Some(
                                Err::<(Seq<SpecStmt>, int), SpecParseError>(ev),
                            ));
                        }
                    }
                    return r;
                },
            };
            let ghost ebv = stmts_view(elif_body@);
            let ghost ekpos = self.position as int;

            let ghost pre_elifs = elif_branches@;
            elif_branches.push((elif_condition, elif_body));
            self.skip_newlines();
            proof {
                lemma_elifs_view(pre_elifs);
                lemma_elifs_view(elif_branches@);
                lemma_stmts_view(elif_branches@[elif_branches@.len() - 1].1@);
                assert(elifs_view(elif_branches@) =~= elifs_view(pre_elifs).push((ecv, ebv)));
                assert forall|f: nat| f as int >= pfuel(ts, i0, 2) implies spec_elif_loop(
                    ts,
                    i0,
                    Seq::empty(),
                    f,
                ) == spec_elif_loop(
                    ts,
                    self.position as int,
                    elifs_view(elif_branches@),
                    (f - (used + 1)) as nat,
                ) by {
                    let g = (f - used) as nat;
                    assert(g as int >= pfuel(ts, cur, 0));
                    assert((g - 1) as int >= pfuel(ts, cur + 1, 1));
                    assert(spec_parse_expression(ts, cur + 1, 0, (g - 1) as nat) == Some(
                        Ok::<(SpecExpr, int), SpecParseError>((ecv, ejpos)),
                    ));
                    assert((g - 1) as int >= pfuel(ts, ebstart, 1));
                    assert(spec_parse_block(ts, ebstart, (g - 1) as nat) == Some(
                        Ok::<(Seq<SpecStmt>, int), SpecParseError>((ebv, ekpos)),
                    ));
                    assert(spec_elif_loop(ts, cur, elifs_view(pre_elifs), g) == spec_elif_loop(
                        ts,
                        spec_skip_newlines(ts, ekpos),
                        elifs_view(pre_elifs).push((ecv, ebv)),
                        (g - 1) as nat,
                    ));
                }
                used = used + 1;
            }
        }
        Ok(elif_branches)
    }

    /// Parses an if statement with optional elif and else branches.
    fn parse_if_statement(&mut self) -> (r: ParseResult<Statement>)
        requires
            old(self).wf(),
            old(self).position < old(self).tokens@.len(),
            old(self).tokens@[old(self).position as int].token_type is If,
        ensures
            final(self).wf(),
            final(self).tokens == old(self).tokens,
            old(self).position <= final(self).position,
            r is Ok ==> old(self).position < final(self).position,
            forall|fuel: nat|
                fuel as int >= pfuel(old(self).tokens@, old(self).position as int, 3)
                    ==> spec_parse_if(old(self).tokens@, old(self).position as int, fuel)
                    == spec_stmt_outcome(r, final(self).position as int),
        decreases old(self).tokens@.len() - old(self).position, 1int,
    {
        let ghost ts = self.tokens@;
        let ghost i0 = self.position as int;
        self.advance();  // consume 'if'

        let condition = match self.parse_expression(0) {
            Ok(c) => c,
            Err(e) => {
                let ghost ev = e@;
                let r = Err::<Statement, ParseError>(e);
                proof {
                    assert forall|fuel: nat| fuel as int >= pfuel(ts, i0, 3) implies
                        spec_parse_if(ts, i0, fuel) == spec_stmt_outcome(
                        r,
                        self.position as int,
                    ) by {
                        assert((fuel - 1) as int >= pfuel(ts, i0 + 1, 1));
                        assert(spec_parse_expression(ts, i0 + 1, 0, (fuel - 1) as nat) == Some(
                            Err::<(SpecExpr, int), SpecParseError>(ev),
                        ));
                    }
                }
                return r;
            },
        };
        let ghost cv = condition@;
        let ghost jpos = self.position as int;

        self.skip_newlines();
        let ghost tstart = self.position as int;
        let then_branch = match self.parse_block() {
            Ok(b) => b,
            Err(e) => {
                let ghost ev = e@;
                let r = Err::<Statement, ParseError>(e);
                proof {
                    assert forall|fuel: nat| fuel as int >= pfuel(ts, i0, 3) implies
                        spec_parse_if(ts, i0, fuel) == spec_stmt_outcome(
                        r,
                        self.position as int,
                    ) by {
                        assert((fuel - 1) as int >= pfuel(ts, i0 + 1, 1));
                        assert(spec_parse_expression(ts, i0 + 1, 0, (fuel - 1) as nat) == Some(
                            Ok::<(SpecExpr, int), SpecParseError>((cv, jpos)),
                        ));
                        assert((fuel - 1) as int >= pfuel(ts, tstart, 1));
                        assert(spec_parse_block(ts, tstart, (fuel - 1) as nat) == Some(
                            Err::<(Seq<SpecStmt>, int), SpecParseError>(ev),
                        ));
                    }
                }
                return r;
            },
        };
        let ghost tv = stmts_view(then_branch@);
        let ghost kpos = self.position as int;

        self.skip_newlines();
        let ghost estart = self.position as int;
        let elif_branches = match self.parse_elif_branches() {
            Ok(v) => v,
            Err(e) => {
                let ghost ev = e@;
                let r = Err::<Statement, ParseError>(e);
                proof {
                    assert forall|fuel: nat| fuel as int >= pfuel(ts, i0, 3) implies
                        spec_parse_if(ts, i0, fuel) == spec_stmt_outcome(
                        r,
                        self.position as int,
                    ) by {
                        assert((fuel - 1) as int >= pfuel(ts, i0 + 1, 1));
                        assert(spec_parse_expression(ts, i0 + 1, 0, (fuel - 1) as nat) == Some(
                            Ok::<(SpecExpr, int), SpecParseError>((cv, jpos)),
                        ));
                        assert((fuel - 1) as int >= pfuel(ts, tstart, 1));
                        assert(spec_parse_block(ts, tstart, (fuel - 1) as nat) == Some(
                            Ok::<(Seq<SpecStmt>, int), SpecParseError>((tv, kpos)),
                        ));
                        assert((fuel - 1) as int >= pfuel(ts, estart, 2));
                        assert(spec_elif_loop(ts, estart, Seq::empty(), (fuel - 1) as nat)
                            == Some(Err::<(Seq<(SpecExpr, Seq<SpecStmt>)>, int), SpecParseError>(
                            ev,
                        )));
                    }
                }
                return r;
            },
        };
        let ghost ev_all = elifs_view(elif_branches@);
        let ghost mpos = self.position as int;

        let has_else = match self.current_token() {
            Some(t) => matches!(t.token_type, TokenType::Else),
            None => false,
        };
        let ghost mut obstart: int = 0;
        let ghost mut else_bv: Seq<SpecStmt> = Seq::empty();
        let else_branch = if has_else {
            self.advance();  // consume 'else'
            self.skip_newlines();
            proof {
                obstart = self.position as int;
            }
            let else_body = match self.parse_block() {
                Ok(b) => b,
                Err(e) => {
                    let ghost evv = e@;
                    let r = Err::<Statement, ParseError>(e);
                    proof {
                        assert forall|fuel: nat| fuel as int >= pfuel(ts, i0, 3) implies
                            spec_parse_if(ts, i0, fuel) == spec_stmt_outcome(
                            r,
                            self.position as int,
                        ) by {
                            assert((fuel - 1) as int >= pfuel(ts, i0 + 1, 1));
                            assert(spec_parse_expression(ts, i0 + 1, 0, (fuel - 1) as nat)
                                == Some(Ok::<(SpecExpr, int), SpecParseError>((cv, jpos))));
                            assert((fuel - 1) as int >= pfuel(ts, tstart, 1));
                            assert(spec_parse_block(ts, tstart, (fuel - 1) as nat) == Some(
                                Ok::<(Seq<SpecStmt>, int), SpecParseError>((tv, kpos)),
                            ));
                            assert((fuel - 1) as int >= pfuel(ts, estart, 2));
                            assert(spec_elif_loop(ts, estart, Seq::empty(), (fuel - 1) as nat)
                                == Some(
                                Ok::<(Seq<(SpecExpr, Seq<SpecStmt>)>, int), SpecParseError>(
                                    (ev_all, mpos),
                                ),
                            ));
                            assert((fuel - 1) as int >= pfuel(ts, obstart, 1));
                            assert(spec_parse_block(ts, obstart, (fuel - 1) as nat) == Some(
                                Err::<(Seq<SpecStmt>, int), SpecParseError>(evv),
                            ));
                        }
                    }
                    return r;
                },
            };
            proof {
                else_bv = stmts_view(else_body@);
            }
            Some(else_body)
        } else {
            None
        };
        let ghost obv = match &else_branch {
            Some(b) => Some(stmts_view(b@)),
            None => None::<Seq<SpecStmt>>,
        };
        let ghost qpos = self.position as int;

        let trailing_newline = match self.current_token() {
            Some(t) => matches!(t.token_type, TokenType::Newline),
            None => false,
        };
        if trailing_newline {
            self.advance();
        }

        let r = Ok::<Statement, ParseError>(
            Statement::If { condition, then_branch, elif_branches, else_branch },
        );
        proof {
            assert forall|fuel: nat| fuel as int >= pfuel(ts, i0, 3) implies spec_parse_if(
                ts,
                i0,
                fuel,
            ) == spec_stmt_outcome(r, self.position as int) by {
                assert((fuel - 1) as int >= pfuel(ts, i0 + 1, 1));
                assert(spec_parse_expression(ts, i0 + 1, 0, (fuel - 1) as nat) == Some(
                    Ok::<(SpecExpr, int), SpecParseError>((cv, jpos)),
                ));
                assert((fuel - 1) as int >= pfuel(ts, tstart, 1));
                assert(spec_parse_block(ts, tstart, (fuel - 1) as nat) == Some(
                    Ok::<(Seq<SpecStmt>, int), SpecParseError>((tv, kpos)),
                ));
                assert((fuel - 1) as int >= pfuel(ts, estart, 2));
                assert(spec_elif_loop(ts, estart, Seq::empty(), (fuel - 1) as nat) == Some(
                    Ok::<(Seq<(SpecExpr, Seq<SpecStmt>)>, int), SpecParseError>((ev_all, mpos)),
                ));
                if has_else {
                    assert((fuel - 1) as int >= pfuel(ts, obstart, 1));
                    assert(spec_parse_block(ts, obstart, (fuel - 1) as nat) == Some(
                        Ok::<(Seq<SpecStmt>, int), SpecParseError>((else_bv, qpos)),
                    ));
                    assert(obv == Some(else_bv));
                    assert(r->Ok_0@ == SpecStmt::If {
                        condition: cv,
                        then_branch: tv,
                        elif_branches: ev_all,
                        else_branch: obv,
                    });
                } else {
                    assert(r->Ok_0@ == SpecStmt::If {
                        condition: cv,
                        then_branch: tv,
                        elif_branches: ev_all,
                        else_branch: None::<Seq<SpecStmt>>,
                    });
                }
            }
        }
        r
    }

    /// Parses a while loop.
    #[verifier::rlimit(40)]
    fn parse_while_statement(&mut self) -> (r: ParseResult<Statement>)
        requires
            old(self).wf(),
            old(self).position < old(self).tokens@.len(),
            old(self).tokens@[old(self).position as int].token_type is While,
        ensures
            final(self).wf(),
            final(self).tokens == old(self).tokens,
            old(self).position <= final(self).position,
            r is Ok ==> old(self).position < final(self).position,
            forall|fuel: nat|
                fuel as int >= pfuel(old(self).tokens@, old(self).position as int, 3)
                    ==> spec_parse_while(old(self).tokens@, old(self).position as int, fuel)
                    == spec_stmt_outcome(r, final(self).position as int),
        decreases old(self).tokens@.len() - old(self).position, 1int,
    {
        let ghost ts = self.tokens@;
        let ghost i0 = self.position as int;
        self.advance();  // consume 'while'

        let condition = match self.parse_expression(0) {
            Ok(c) => c,
            Err(e) => {
                let ghost ev = e@;
                let r = Err::<Statement, ParseError>(e);
                proof {
                    assert forall|fuel: nat| fuel as int >= pfuel(ts, i0, 3) implies
                        spec_parse_while(ts, i0, fuel) == spec_stmt_outcome(
                        r,
                        self.position as int,
                    ) by {
                        assert((fuel - 1) as int >= pfuel(ts, i0 + 1, 1));
                        assert(spec_parse_expression(ts, i0 + 1, 0, (fuel - 1) as nat) == Some(
                            Err::<(SpecExpr, int), SpecParseError>(ev),
                        ));
                    }
                }
                return r;
            },
        };
        let ghost cv = condition@;
        let ghost jpos = self.position as int;

        self.skip_newlines();
        let ghost bstart = self.position as int;
        let body = match self.parse_block() {
            Ok(b) => b,
            Err(e) => {
                let ghost ev = e@;
                let r = Err::<Statement, ParseError>(e);
                proof {
                    assert forall|fuel: nat| fuel as int >= pfuel(ts, i0, 3) implies
                        spec_parse_while(ts, i0, fuel) == spec_stmt_outcome(
                        r,
                        self.position as int,
                    ) by {
                        assert((fuel - 1) as int >= pfuel(ts, i0 + 1, 1));
                        assert(spec_parse_expression(ts, i0 + 1, 0, (fuel - 1) as nat) == Some(
                            Ok::<(SpecExpr, int), SpecParseError>((cv, jpos)),
                        ));
                        assert((fuel - 1) as int >= pfuel(ts, bstart, 1));
                        assert(spec_parse_block(ts, bstart, (fuel - 1) as nat) == Some(
                            Err::<(Seq<SpecStmt>, int), SpecParseError>(ev),
                        ));
                    }
                }
                return r;
            },
        };
        let ghost bv = stmts_view(body@);
        let ghost kpos = self.position as int;

        let trailing_newline = match self.current_token() {
            Some(t) => matches!(t.token_type, TokenType::Newline),
            None => false,
        };
        if trailing_newline {
            self.advance();
        }

        let r = Ok::<Statement, ParseError>(Statement::While { condition, body });
        proof {
            assert forall|fuel: nat| fuel as int >= pfuel(ts, i0, 3) implies spec_parse_while(
                ts,
                i0,
                fuel,
            ) == spec_stmt_outcome(r, self.position as int) by {
                assert((fuel - 1) as int >= pfuel(ts, i0 + 1, 1));
                assert(spec_parse_expression(ts, i0 + 1, 0, (fuel - 1) as nat) == Some(
                    Ok::<(SpecExpr, int), SpecParseError>((cv, jpos)),
                ));
                assert((fuel - 1) as int >= pfuel(ts, bstart, 1));
                assert(spec_parse_block(ts, bstart, (fuel - 1) as nat) == Some(
                    Ok::<(Seq<SpecStmt>, int), SpecParseError>((bv, kpos)),
                ));
                assert(r->Ok_0@ == SpecStmt::While { condition: cv, body: bv });
            }
        }
        r
    }

    /// Parses a single expression, leaving the cursor where the
    /// expression ends. On an error the parse aborts with the error the
    /// model fixes; the cursor then rests where the fault was found and
    /// is deliberately left only bounded by the contract.
    pub fn parse_expression_only(&mut self) -> (r: ParseResult<Expr>)
        requires
            old(self).wf(),
        ensures
            final(self).wf(),
            final(self).tokens == old(self).tokens,
            old(self).position <= final(self).position,
            r is Ok ==> old(self).position < final(self).position,
            forall|fuel: nat|
                fuel as int >= pfuel(old(self).tokens@, old(self).position as int, 1)
                    ==> spec_parse_expression(
                    old(self).tokens@,
                    old(self).position as int,
                    0,
                    fuel,
                ) == spec_expr_outcome(r, final(self).position as int),
    {
        self.parse_expression(0)
    }
}

impl ParseError {
    /// A human-readable description of the parse error, naming the
    /// expected construct and the position of the offending token.
    pub fn message(&self) -> (r: String)
        ensures
            r@ == spec_parse_error_message(*self),
    {
        match self {
            ParseError::UnexpectedToken { expected, found } => {
                let mut out = String::new();
                out.append("Expected ");
                out.append(expected.as_str());
                out.append(" but found ");
                let kt = found.token_type.kind_text();
                out.append(kt.as_str());
                out.append(" at line ");
                push_usize_text(&mut out, found.line);
                out.append(", column ");
                push_usize_text(&mut out, found.column);
                proof {
                    reveal_strlit("Expected ");
                    reveal_strlit(" but found ");
                    reveal_strlit(" at line ");
                    reveal_strlit(", column ");
                    assert(out@ =~= spec_parse_error_message(*self));
                }
                out
            },
            ParseError::UnexpectedEof { expected } => {
                let mut out = String::new();
                out.append("Unexpected end of file, expected ");
                out.append(expected.as_str());
                proof {
                    reveal_strlit("Unexpected end of file, expected ");
                    assert(out@ =~= spec_parse_error_message(*self));
                }
                out
            },
            ParseError::InvalidExpression { token } => {
                let mut out = String::new();
                out.append("Invalid expression at line ");
                push_usize_text(&mut out, token.line);
                out.append(", column ");
                push_usize_text(&mut out, token.column);
                proof {
                    reveal_strlit("Invalid expression at line ");
                    reveal_strlit(", column ");
                    assert(out@ =~= spec_parse_error_message(*self));
                }
                out
            },
        }
    }
}

/// The display text of a parse error.
pub open spec fn spec_parse_error_message(e: ParseError) -> Seq<char> {
    match e {
        ParseError::UnexpectedToken { expected, found } => "Expected "@ + expected@
            + " but found "@ + spec_kind_text(found.token_type) + " at line "@ + spec_nat_text(
            found.line as nat,
        ) + ", column "@ + spec_nat_text(found.column as nat),
        ParseError::UnexpectedEof { expected } => "Unexpected end of file, expected "@ + expected@,
        ParseError::InvalidExpression { token } => "Invalid expression at line "@ + spec_nat_text(
            token.line as nat,
        ) + ", column "@ + spec_nat_text(token.column as nat),
    }
}

/// The display text of a token kind: its name, with the payload of a
/// literal or identifier.
pub open spec fn spec_kind_text(t: TokenType) -> Seq<char> {
    match t {
        TokenType::Integer(n) => "Integer("@ + crate::text::spec_i64_text(n) + ")"@,
        TokenType::Float(s) => "Float("@ + s@ + ")"@,
        TokenType::String(s) => "String("@ + s@ + ")"@,
        TokenType::Identifier(s) => "Identifier("@ + s@ + ")"@,
        TokenType::Plus => "Plus"@,
        TokenType::Minus => "Minus"@,
        TokenType::Multiply => "Multiply"@,
        TokenType::Divide => "Divide"@,
        TokenType::Equals => "Equals"@,
        TokenType::EqualEqual => "EqualEqual"@,
        TokenType::NotEqual => "NotEqual"@,
        TokenType::LessThan => "LessThan"@,
        TokenType::LessThanOrEqual => "LessThanOrEqual"@,
        TokenType::GreaterThan => "GreaterThan"@,
        TokenType::GreaterThanOrEqual => "GreaterThanOrEqual"@,
        TokenType::LeftParen => "LeftParen"@,
        TokenType::RightParen => "RightParen"@,
        TokenType::LeftBrace => "LeftBrace"@,
        TokenType::RightBrace => "RightBrace"@,
        TokenType::Comma => "Comma"@,
        TokenType::Newline => "Newline"@,
        TokenType::Dot => "Dot"@,
        TokenType::Fn => "Fn"@,
        TokenType::If => "If"@,
        TokenType::Elif => "Elif"@,
        TokenType::Else => "Else"@,
        TokenType::While => "While"@,
        TokenType::Class => "Class"@,
        TokenType::Self_ => "Self_"@,
        TokenType::Eof => "Eof"@,
    }
}

impl TokenType {
    /// The display text of the token kind.
    pub fn kind_text(&self) -> (r: String)
        ensures
            r@ == spec_kind_text(*self),
    {
        let mut out = String::new();
        match self {
            TokenType::Integer(n) => {
                out.append("Integer(");
                crate::text::push_i64_text(&mut out, *n);
                out.append(")");
                proof {
                    reveal_strlit("Integer(");
                    reveal_strlit(")");
                    assert(out@ =~= spec_kind_text(*self));
                }
            },
            TokenType::Float(s) => {
                out.append("Float(");
                out.append(s.as_str());
                out.append(")");
                proof {
                    reveal_strlit("Float(");
                    reveal_strlit(")");
                    assert(out@ =~= spec_kind_text(*self));
                }
            },
            TokenType::String(s) => {
                out.append("String(");
                out.append(s.as_str());
                out.append(")");
                proof {
                    reveal_strlit("String(");
                    reveal_strlit(")");
                    assert(out@ =~= spec_kind_text(*self));
                }
            },
            TokenType::Identifier(s) => {
                out.append("Identifier(");
                out.append(s.as_str());
                out.append(")");
                proof {
                    reveal_strlit("Identifier(");
                    reveal_strlit(")");
                    assert(out@ =~= spec_kind_text(*self));
                }
            },
            TokenType::Plus => {
                out.append("Plus");
                proof {
                    reveal_strlit("Plus");
                    assert(out@ =~= spec_kind_text(*self));
                }
            },
            TokenType::Minus => {
                out.append("Minus");
                proof {
                    reveal_strlit("Minus");
                    assert(out@ =~= spec_kind_text(*self));
                }
            },
            TokenType::Multiply => {
                out.append("Multiply");
                proof {
                    reveal_strlit("Multiply");
                    assert(out@ =~= spec_kind_text(*self));
                }
            },
            TokenType::Divide => {
                out.append("Divide");
                proof {
                    reveal_strlit("Divide");
                    assert(out@ =~= spec_kind_text(*self));
                }
            },
            TokenType::Equals => {
                out.append("Equals");
                proof {
                    reveal_strlit("Equals");
                    assert(out@ =~= spec_kind_text(*self));
                }
            },
            TokenType::EqualEqual => {
                out.append("EqualEqual");
                proof {
                    reveal_strlit("EqualEqual");
                    assert(out@ =~= spec_kind_text(*self));
                }
            },
            TokenType::NotEqual => {
                out.append("NotEqual");
                proof {
                    reveal_strlit("NotEqual");
                    assert(out@ =~= spec_kind_text(*self));
                }
            },
            TokenType::LessThan => {
                out.append("LessThan");
                proof {
                    reveal_strlit("LessThan");
                    assert(out@ =~= spec_kind_text(*self));
                }
            },
            TokenType::LessThanOrEqual => {
                out.append("LessThanOrEqual");
                proof {
                    reveal_strlit("LessThanOrEqual");
                    assert(out@ =~= spec_kind_text(*self));
                }
            },
            TokenType::GreaterThan => {
                out.append("GreaterThan");
                proof {
                    reveal_strlit("GreaterThan");
                    assert(out@ =~= spec_kind_text(*self));
                }
            },
            TokenType::GreaterThanOrEqual => {
                out.append("GreaterThanOrEqual");
                proof {
                    reveal_strlit("GreaterThanOrEqual");
                    assert(out@ =~= spec_kind_text(*self));
                }
            },
            TokenType::LeftParen => {
                out.append("LeftParen");
                proof {
                    reveal_strlit("LeftParen");
                    assert(out@ =~= spec_kind_text(*self));
                }
            },
            TokenType::RightParen => {
                out.append("RightParen");
                proof {
                    reveal_strlit("RightParen");
                    assert(out@ =~= spec_kind_text(*self));
                }
            },
            TokenType::LeftBrace => {
                out.append("LeftBrace");
                proof {
                    reveal_strlit("LeftBrace");
                    assert(out@ =~= spec_kind_text(*self));
                }
            },
            TokenType::RightBrace => {
                out.append("RightBrace");
                proof {
                    reveal_strlit("RightBrace");
                    assert(out@ =~= spec_kind_text(*self));
                }
            },
            TokenType::Comma => {
                out.append("Comma");
                proof {
                    reveal_strlit("Comma");
                    assert(out@ =~= spec_kind_text(*self));
                }
            },
            TokenType::Newline => {
                out.append("Newline");
                proof {
                    reveal_strlit("Newline");
                    assert(out@ =~= spec_kind_text(*self));
                }
            },
            TokenType::Dot => {
                out.append("Dot");
                proof {
                    reveal_strlit("Dot");
                    assert(out@ =~= spec_kind_text(*self));
                }
            },
            TokenType::Fn => {
                out.append("Fn");
                proof {
                    reveal_strlit("Fn");
                    assert(out@ =~= spec_kind_text(*self));
                }
            },
            TokenType::If => {
                out.append("If");
                proof {
                    reveal_strlit("If");
                    assert(out@ =~= spec_kind_text(*self));
                }
            },
            TokenType::Elif => {
                out.append("Elif");
                proof {
                    reveal_strlit("Elif");
                    assert(out@ =~= spec_kind_text(*self));
                }
            },
            TokenType::Else => {
                out.append("Else");
                proof {
                    reveal_strlit("Else");
                    assert(out@ =~= spec_kind_text(*self));
                }
            },
            TokenType::While => {
                out.append("While");
                proof {
                    reveal_strlit("While");
                    assert(out@ =~= spec_kind_text(*self));
                }
            },
            TokenType::Class => {
                out.append("Class");
                proof {
                    reveal_strlit("Class");
                    assert(out@ =~= spec_kind_text(*self));
                }
            },
            TokenType::Self_ => {
                out.append("Self_");
                proof {
                    reveal_strlit("Self_");
                    assert(out@ =~= spec_kind_text(*self));
                }
            },
            TokenType::Eof => {
                out.append("Eof");
                proof {
                    reveal_strlit("Eof");
                    assert(out@ =~= spec_kind_text(*self));
                }
            },
        }
        out
    }
}

} // verus!
