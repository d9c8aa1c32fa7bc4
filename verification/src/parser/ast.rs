//! The abstract syntax tree of the Grit language: expressions, statements
//! and programs, their mathematical views, and their display text.

use vstd::prelude::*;
use vstd::string::StringExecFns;
use crate::text::{push_i64_text, push_usize_text, spec_i64_text, spec_nat_text};

verus! {

/// Binary operators.
#[derive(Debug, Clone, Copy, PartialEq)]
pub enum BinaryOperator {
    Add,
    Subtract,
    Multiply,
    Divide,
    // Comparison operators
    EqualEqual,
    NotEqual,
    LessThan,
    LessThanOrEqual,
    GreaterThan,
    GreaterThanOrEqual,
}

/// The precedence tier of an operator: comparisons bind loosest,
/// multiplication and division bind tightest.
pub open spec fn spec_precedence(op: BinaryOperator) -> u8 {
    match op {
        BinaryOperator::EqualEqual
        | BinaryOperator::NotEqual
        | BinaryOperator::LessThan
        | BinaryOperator::LessThanOrEqual
        | BinaryOperator::GreaterThan
        | BinaryOperator::GreaterThanOrEqual => 0,
        BinaryOperator::Add | BinaryOperator::Subtract => 1,
        BinaryOperator::Multiply | BinaryOperator::Divide => 2,
    }
}

/// The source symbol of an operator.
pub open spec fn spec_op_symbol(op: BinaryOperator) -> Seq<char> {
    match op {
        BinaryOperator::Add => seq!['+'],
        BinaryOperator::Subtract => seq!['-'],
        BinaryOperator::Multiply => seq!['*'],
        BinaryOperator::Divide => seq!['/'],
        BinaryOperator::EqualEqual => seq!['=', '='],
        BinaryOperator::NotEqual => seq!['!', '='],
        BinaryOperator::LessThan => seq!['<'],
        BinaryOperator::LessThanOrEqual => seq!['<', '='],
        BinaryOperator::GreaterThan => seq!['>'],
        BinaryOperator::GreaterThanOrEqual => seq!['>', '='],
    }
}

impl BinaryOperator {
    /// Returns the precedence of the operator (higher binds tighter).
    pub fn precedence(&self) -> (p: u8)
        ensures
            p == spec_precedence(*self),
    {
        match self {
            BinaryOperator::EqualEqual
            | BinaryOperator::NotEqual
            | BinaryOperator::LessThan
            | BinaryOperator::LessThanOrEqual
            | BinaryOperator::GreaterThan
            | BinaryOperator::GreaterThanOrEqual => 0,
            BinaryOperator::Add | BinaryOperator::Subtract => 1,
            BinaryOperator::Multiply | BinaryOperator::Divide => 2,
        }
    }

    /// Returns the operator's source symbol.
    pub fn symbol(&self) -> (r: &'static str)
        ensures
            r@ == spec_op_symbol(*self),
    {
        match self {
            BinaryOperator::Add => {
                proof {
                    reveal_strlit("+");
                }
                "+"
            },
            BinaryOperator::Subtract => {
                proof {
                    reveal_strlit("-");
                }
                "-"
            },
            BinaryOperator::Multiply => {
                proof {
                    reveal_strlit("*");
                }
                "*"
            },
            BinaryOperator::Divide => {
                proof {
                    reveal_strlit("/");
                }
                "/"
            },
            BinaryOperator::EqualEqual => {
                proof {
                    reveal_strlit("==");
                }
                "=="
            },
            BinaryOperator::NotEqual => {
                proof {
                    reveal_strlit("!=");
                }
                "!="
            },
            BinaryOperator::LessThan => {
                proof {
                    reveal_strlit("<");
                }
                "<"
            },
            BinaryOperator::LessThanOrEqual => {
                proof {
                    reveal_strlit("<=");
                }
                "<="
            },
            BinaryOperator::GreaterThan => {
                proof {
                    reveal_strlit(">");
                }
                ">"
            },
            BinaryOperator::GreaterThanOrEqual => {
                proof {
                    reveal_strlit(">=");
                }
                ">="
            },
        }
    }
}

/// Abstract syntax tree node for expressions.
#[derive(Debug, PartialEq)]
pub enum Expr {
    /// Integer literal
    Integer(i64),
    /// Float literal, kept as its normalized decimal text
    Float(String),
    /// String literal
    String(String),
    /// Variable reference
    Identifier(String),
    /// Binary operation (left operand, operator, right operand)
    BinaryOp { left: Box<Expr>, op: BinaryOperator, right: Box<Expr> },
    /// Grouped expression (parentheses)
    Grouped(Box<Expr>),
    /// Function call: function_name(arg1, arg2, ...)
    FunctionCall { name: String, args: Vec<Expr> },
    /// Field access: object.field or self.field
    FieldAccess { object: Box<Expr>, field: String },
    /// Method call: object.method(args) or ClassName.method(args)
    MethodCall { object: Box<Expr>, method: String, args: Vec<Expr> },
}

/// The mathematical counterpart of `Expr`.
pub ghost enum SpecExpr {
    Integer(i64),
    Float(Seq<char>),
    StrLit(Seq<char>),
    Ident(Seq<char>),
    Binary { left: Box<SpecExpr>, op: BinaryOperator, right: Box<SpecExpr> },
    Grouped(Box<SpecExpr>),
    Call { name: Seq<char>, args: Seq<SpecExpr> },
    Field { object: Box<SpecExpr>, field: Seq<char> },
    Method { object: Box<SpecExpr>, method: Seq<char>, args: Seq<SpecExpr> },
}

/// The views of a sequence of expressions, in order.
pub open spec fn exprs_view(es: Seq<Expr>) -> Seq<SpecExpr>
    decreases es,
{
    if es.len() == 0 {
        Seq::empty()
    } else {
        seq![es[0]@] + exprs_view(es.skip(1))
    }
}

impl View for Expr {
    type V = SpecExpr;

    open spec fn view(&self) -> SpecExpr
        decreases self,
    {
        match self {
            Expr::Integer(n) => SpecExpr::Integer(*n),
            Expr::Float(t) => SpecExpr::Float(t@),
            Expr::String(s) => SpecExpr::StrLit(s@),
            Expr::Identifier(n) => SpecExpr::Ident(n@),
            Expr::BinaryOp { left, op, right } => SpecExpr::Binary {
                left: Box::new((**left)@),
                op: *op,
                right: Box::new((**right)@),
            },
            Expr::Grouped(inner) => SpecExpr::Grouped(Box::new((**inner)@)),
            Expr::FunctionCall { name, args } => SpecExpr::Call {
                name: name@,
                args: exprs_view(args@),
            },
            Expr::FieldAccess { object, field } => SpecExpr::Field {
                object: Box::new((**object)@),
                field: field@,
            },
            Expr::MethodCall { object, method, args } => SpecExpr::Method {
                object: Box::new((**object)@),
                method: method@,
                args: exprs_view(args@),
            },
        }
    }
}

impl Clone for Expr {
    /// Clones the expression tree; the clone's view equals the original's.
    fn clone(&self) -> (res: Self)
        ensures
            res@ == self@,
        decreases self,
    {
        match self {
            Expr::Integer(n) => Expr::Integer(*n),
            Expr::Float(t) => Expr::Float(t.clone()),
            Expr::String(s) => Expr::String(s.clone()),
            Expr::Identifier(n) => Expr::Identifier(n.clone()),
            Expr::BinaryOp { left, op, right } => Expr::BinaryOp {
                left: Box::new((**left).clone()),
                op: *op,
                right: Box::new((**right).clone()),
            },
            Expr::Grouped(inner) => Expr::Grouped(Box::new((**inner).clone())),
            Expr::FunctionCall { name, args } => {
                let cloned_args = clone_exprs(args);
                proof {
                    lemma_exprs_view(args@);
                    lemma_exprs_view(cloned_args@);
                    assert(exprs_view(cloned_args@) =~= exprs_view(args@));
                }
                Expr::FunctionCall { name: name.clone(), args: cloned_args }
            },
            Expr::FieldAccess { object, field } => Expr::FieldAccess {
                object: Box::new((**object).clone()),
                field: field.clone(),
            },
            Expr::MethodCall { object, method, args } => {
                let cloned_args = clone_exprs(args);
                proof {
                    lemma_exprs_view(args@);
                    lemma_exprs_view(cloned_args@);
                    assert(exprs_view(cloned_args@) =~= exprs_view(args@));
                }
                Expr::MethodCall {
                    object: Box::new((**object).clone()),
                    method: method.clone(),
                    args: cloned_args,
                }
            },
        }
    }
}

/// Clones a vector of expressions element by element; the clones' views
/// equal the originals'.
fn clone_exprs(args: &Vec<Expr>) -> (res: Vec<Expr>)
    ensures
        res@.len() == args@.len(),
        forall|i: int| 0 <= i < args@.len() ==> res@[i]@ == args@[i]@,
    decreases args@,
{
    let mut out: Vec<Expr> = Vec::new();
    let mut i: usize = 0;
    while i < args.len()
        invariant
            i <= args@.len(),
            out@.len() == i as int,
            forall|k: int| 0 <= k < i as int ==> out@[k]@ == args@[k]@,
        decreases args@.len() - i,
    {
        out.push(args[i].clone());
        i += 1;
    }
    out
}

/// Statement in the program.
#[derive(Debug, PartialEq)]
pub enum Statement {
    /// Function definition: fn name(params) { body }
    FunctionDef { name: String, params: Vec<String>, body: Vec<Statement> },
    /// Class definition: class Name
    ClassDef { name: String },
    /// Method definition: fn ClassName > methodName(params) { body }
    MethodDef {
        class_name: String,
        method_name: String,
        params: Vec<String>,
        body: Vec<Statement>,
    },
    /// Variable assignment: identifier = expression
    Assignment { name: String, value: Expr },
    /// If statement with optional elif and else branches
    If {
        condition: Expr,
        then_branch: Vec<Statement>,
        elif_branches: Vec<(Expr, Vec<Statement>)>,
        else_branch: Option<Vec<Statement>>,
    },
    /// While loop
    While { condition: Expr, body: Vec<Statement> },
    /// Expression statement
    Expression(Expr),
}

/// The mathematical counterpart of `Statement`.
pub ghost enum SpecStmt {
    FunctionDef { name: Seq<char>, params: Seq<Seq<char>>, body: Seq<SpecStmt> },
    ClassDef { name: Seq<char> },
    MethodDef {
        class_name: Seq<char>,
        method_name: Seq<char>,
        params: Seq<Seq<char>>,
        body: Seq<SpecStmt>,
    },
    Assignment { name: Seq<char>, value: SpecExpr },
    If {
        condition: SpecExpr,
        then_branch: Seq<SpecStmt>,
        elif_branches: Seq<(SpecExpr, Seq<SpecStmt>)>,
        else_branch: Option<Seq<SpecStmt>>,
    },
    While { condition: SpecExpr, body: Seq<SpecStmt> },
    Expression(SpecExpr),
}

/// The views of a parameter list.
pub open spec fn params_view(params: Seq<String>) -> Seq<Seq<char>> {
    params.map_values(|p: String| p@)
}

impl View for Statement {
    type V = SpecStmt;

    open spec fn view(&self) -> SpecStmt
        decreases self,
    {
        match self {
            Statement::FunctionDef { name, params, body } => SpecStmt::FunctionDef {
                name: name@,
                params: params_view(params@),
                body: stmts_view(body@),
            },
            Statement::ClassDef { name } => SpecStmt::ClassDef { name: name@ },
            Statement::MethodDef { class_name, method_name, params, body } => SpecStmt::MethodDef {
                class_name: class_name@,
                method_name: method_name@,
                params: params_view(params@),
                body: stmts_view(body@),
            },
            Statement::Assignment { name, value } => SpecStmt::Assignment {
                name: name@,
                value: value@,
            },
            Statement::If { condition, then_branch, elif_branches, else_branch } => SpecStmt::If {
                condition: condition@,
                then_branch: stmts_view(then_branch@),
                elif_branches: elifs_view(elif_branches@),
                else_branch: match else_branch {
                    Some(stmts) => Some(stmts_view(stmts@)),
                    None => None,
                },
            },
            Statement::While { condition, body } => SpecStmt::While {
                condition: condition@,
                body: stmts_view(body@),
            },
            Statement::Expression(e) => SpecStmt::Expression(e@),
        }
    }
}

/// The views of a sequence of statements, in order.
pub open spec fn stmts_view(stmts: Seq<Statement>) -> Seq<SpecStmt>
    decreases stmts,
{
    if stmts.len() == 0 {
        Seq::empty()
    } else {
        seq![stmts[0]@] + stmts_view(stmts.skip(1))
    }
}

/// The views of the elif branches of an if statement, in order.
pub open spec fn elifs_view(elifs: Seq<(Expr, Vec<Statement>)>) -> Seq<(SpecExpr, Seq<SpecStmt>)>
    decreases elifs,
{
    if elifs.len() == 0 {
        Seq::empty()
    } else {
        seq![(elifs[0].0@, stmts_view(elifs[0].1@))] + elifs_view(elifs.skip(1))
    }
}

impl Clone for Statement {
    /// Clones the statement tree; the clone's view equals the original's.
    fn clone(&self) -> (res: Self)
        ensures
            res@ == self@,
        decreases self,
    {
        match self {
            Statement::FunctionDef { name, params, body } => {
                let cloned_params = clone_params(params);
                let cloned_body = clone_stmts(body);
                proof {
                    assert(params_view(cloned_params@) =~= params_view(params@));
                    lemma_stmts_view(body@);
                    lemma_stmts_view(cloned_body@);
                    assert(stmts_view(cloned_body@) =~= stmts_view(body@));
                }
                Statement::FunctionDef { name: name.clone(), params: cloned_params, body: cloned_body }
            },
            Statement::ClassDef { name } => Statement::ClassDef { name: name.clone() },
            Statement::MethodDef { class_name, method_name, params, body } => {
                let cloned_params = clone_params(params);
                let cloned_body = clone_stmts(body);
                proof {
                    assert(params_view(cloned_params@) =~= params_view(params@));
                    lemma_stmts_view(body@);
                    lemma_stmts_view(cloned_body@);
                    assert(stmts_view(cloned_body@) =~= stmts_view(body@));
                }
                Statement::MethodDef {
                    class_name: class_name.clone(),
                    method_name: method_name.clone(),
                    params: cloned_params,
                    body: cloned_body,
                }
            },
            Statement::Assignment { name, value } => Statement::Assignment {
                name: name.clone(),
                value: value.clone(),
            },
            Statement::If { condition, then_branch, elif_branches, else_branch } => {
                let cloned_then = clone_stmts(then_branch);
                let cloned_elifs = clone_elifs(elif_branches);
                let cloned_else = match else_branch {
                    Some(stmts) => {
                        let cloned = clone_stmts(stmts);
                        proof {
                            lemma_stmts_view(stmts@);
                            lemma_stmts_view(cloned@);
                            assert(stmts_view(cloned@) =~= stmts_view(stmts@));
                        }
                        Some(cloned)
                    },
                    None => None,
                };
                proof {
                    lemma_stmts_view(then_branch@);
                    lemma_stmts_view(cloned_then@);
                    assert(stmts_view(cloned_then@) =~= stmts_view(then_branch@));
                    lemma_elifs_view(elif_branches@);
                    lemma_elifs_view(cloned_elifs@);
                    assert forall|i: int| 0 <= i < elif_branches@.len() implies elifs_view(
                        cloned_elifs@,
                    )[i] == elifs_view(elif_branches@)[i] by {
                        lemma_stmts_view(elif_branches@[i].1@);
                        lemma_stmts_view(cloned_elifs@[i].1@);
                        assert(stmts_view(cloned_elifs@[i].1@) =~= stmts_view(
                            elif_branches@[i].1@,
                        ));
                    }
                    assert(elifs_view(cloned_elifs@) =~= elifs_view(elif_branches@));
                }
                Statement::If {
                    condition: condition.clone(),
                    then_branch: cloned_then,
                    elif_branches: cloned_elifs,
                    else_branch: cloned_else,
                }
            },
            Statement::While { condition, body } => {
                let cloned_body = clone_stmts(body);
                proof {
                    lemma_stmts_view(body@);
                    lemma_stmts_view(cloned_body@);
                    assert(stmts_view(cloned_body@) =~= stmts_view(body@));
                }
                Statement::While { condition: condition.clone(), body: cloned_body }
            },
            Statement::Expression(e) => Statement::Expression(e.clone()),
        }
    }
}

/// Clones a parameter list; the clones equal the originals.
fn clone_params(params: &Vec<String>) -> (res: Vec<String>)
    ensures
        res@.len() == params@.len(),
        forall|i: int| 0 <= i < params@.len() ==> res@[i] == params@[i],
{
    let mut out: Vec<String> = Vec::new();
    let mut i: usize = 0;
    while i < params.len()
        invariant
            i <= params@.len(),
            out@.len() == i as int,
            forall|k: int| 0 <= k < i as int ==> out@[k] == params@[k],
        decreases params@.len() - i,
    {
        out.push(params[i].clone());
        i += 1;
    }
    out
}

/// Clones a vector of statements element by element; the clones' views
/// equal the originals'.
fn clone_stmts(stmts: &Vec<Statement>) -> (res: Vec<Statement>)
    ensures
        res@.len() == stmts@.len(),
        forall|i: int| 0 <= i < stmts@.len() ==> res@[i]@ == stmts@[i]@,
    decreases stmts@,
{
    let mut out: Vec<Statement> = Vec::new();
    let mut i: usize = 0;
    while i < stmts.len()
        invariant
            i <= stmts@.len(),
            out@.len() == i as int,
            forall|k: int| 0 <= k < i as int ==> out@[k]@ == stmts@[k]@,
        decreases stmts@.len() - i,
    {
        out.push(stmts[i].clone());
        i += 1;
    }
    out
}

/// Clones the elif branches of an if statement; the clones' views equal
/// the originals'.
fn clone_elifs(elifs: &Vec<(Expr, Vec<Statement>)>) -> (res: Vec<(Expr, Vec<Statement>)>)
    ensures
        res@.len() == elifs@.len(),
        forall|i: int| 0 <= i < elifs@.len() ==> res@[i].0@ == elifs@[i].0@,
        forall|i: int| 0 <= i < elifs@.len() ==> res@[i].1@.len() == elifs@[i].1@.len(),
        forall|i: int, j: int|
            0 <= i < elifs@.len() && 0 <= j < elifs@[i].1@.len() ==> res@[i].1@[j]@
                == elifs@[i].1@[j]@,
    decreases elifs@,
{
    let mut out: Vec<(Expr, Vec<Statement>)> = Vec::new();
    let mut i: usize = 0;
    while i < elifs.len()
        invariant
            i <= elifs@.len(),
            out@.len() == i as int,
            forall|k: int| 0 <= k < i as int ==> out@[k].0@ == elifs@[k].0@,
            forall|k: int| 0 <= k < i as int ==> out@[k].1@.len() == elifs@[k].1@.len(),
            forall|k: int, j: int|
                0 <= k < i as int && 0 <= j < elifs@[k].1@.len() ==> out@[k].1@[j]@
                    == elifs@[k].1@[j]@,
        decreases elifs@.len() - i,
    {
        let pair = &elifs[i];
        out.push((pair.0.clone(), clone_stmts(&pair.1)));
        i += 1;
    }
    out
}

/// The length and elements of a viewed expression sequence.
pub proof fn lemma_exprs_view(es: Seq<Expr>)
    ensures
        exprs_view(es).len() == es.len(),
        forall|i: int| #![trigger exprs_view(es)[i]] 0 <= i < es.len() ==> exprs_view(es)[i]
            == es[i]@,
    decreases es,
{
    if es.len() > 0 {
        lemma_exprs_view(es.skip(1));
        assert forall|i: int| #![trigger exprs_view(es)[i]] 0 <= i < es.len() implies exprs_view(
            es,
        )[i] == es[i]@ by {
            if i > 0 {
                assert(es.skip(1)[i - 1] == es[i]);
                assert(exprs_view(es) == seq![es[0]@] + exprs_view(es.skip(1)));
                assert((seq![es[0]@] + exprs_view(es.skip(1)))[i] == exprs_view(es.skip(1))[i
                    - 1]);
            }
        }
    }
}

/// The length and elements of a viewed statement sequence.
pub proof fn lemma_stmts_view(stmts: Seq<Statement>)
    ensures
        stmts_view(stmts).len() == stmts.len(),
        forall|i: int| #![trigger stmts_view(stmts)[i]] 0 <= i < stmts.len() ==> stmts_view(
            stmts,
        )[i] == stmts[i]@,
    decreases stmts,
{
    if stmts.len() > 0 {
        lemma_stmts_view(stmts.skip(1));
        assert forall|i: int| #![trigger stmts_view(stmts)[i]] 0 <= i < stmts.len() implies
            stmts_view(stmts)[i] == stmts[i]@ by {
            if i > 0 {
                assert(stmts.skip(1)[i - 1] == stmts[i]);
                assert(stmts_view(stmts) == seq![stmts[0]@] + stmts_view(stmts.skip(1)));
                assert((seq![stmts[0]@] + stmts_view(stmts.skip(1)))[i] == stmts_view(
                    stmts.skip(1),
                )[i - 1]);
            }
        }
    }
}

/// The length and elements of a viewed elif-branch sequence.
pub proof fn lemma_elifs_view(elifs: Seq<(Expr, Vec<Statement>)>)
    ensures
        elifs_view(elifs).len() == elifs.len(),
        forall|i: int| #![trigger elifs_view(elifs)[i]] 0 <= i < elifs.len() ==> elifs_view(
            elifs,
        )[i] == (elifs[i].0@, stmts_view(elifs[i].1@)),
    decreases elifs,
{
    if elifs.len() > 0 {
        lemma_elifs_view(elifs.skip(1));
        assert forall|i: int| #![trigger elifs_view(elifs)[i]] 0 <= i < elifs.len() implies
            elifs_view(elifs)[i] == (elifs[i].0@, stmts_view(elifs[i].1@)) by {
            if i > 0 {
                assert(elifs.skip(1)[i - 1] == elifs[i]);
                assert(elifs_view(elifs) == seq![(elifs[0].0@, stmts_view(elifs[0].1@))]
                    + elifs_view(elifs.skip(1)));
                assert((seq![(elifs[0].0@, stmts_view(elifs[0].1@))] + elifs_view(elifs.skip(1)))[i]
                    == elifs_view(elifs.skip(1))[i - 1]);
            }
        }
    }
}

/// Program is a list of statements.
#[derive(Debug, PartialEq)]
pub struct Program {
    pub statements: Vec<Statement>,
}

impl View for Program {
    type V = Seq<SpecStmt>;

    open spec fn view(&self) -> Seq<SpecStmt> {
        stmts_view(self.statements@)
    }
}

/// The display text of the first `i` expressions of `args`, separated by
/// commas.
pub open spec fn spec_args_text(args: Seq<SpecExpr>, i: int) -> Seq<char>
    decreases args, i,
{
    if i <= 0 || i > args.len() {
        Seq::empty()
    } else if i == 1 {
        spec_expr_text(args[0])
    } else {
        spec_args_text(args, i - 1) + seq![',', ' '] + spec_expr_text(args[i - 1])
    }
}

/// The display text of an expression: binary operations are always
/// parenthesized, so grouping is unambiguous.
pub open spec fn spec_expr_text(e: SpecExpr) -> Seq<char>
    decreases e,
{
    match e {
        SpecExpr::Integer(v) => spec_i64_text(v),
        SpecExpr::Float(t) => t,
        SpecExpr::StrLit(t) => seq!['\''] + t + seq!['\''],
        SpecExpr::Ident(n) => n,
        SpecExpr::Binary { left, op, right } => seq!['('] + spec_expr_text(*left) + seq![' ']
            + spec_op_symbol(op) + seq![' '] + spec_expr_text(*right) + seq![')'],
        SpecExpr::Grouped(inner) => seq!['('] + spec_expr_text(*inner) + seq![')'],
        SpecExpr::Call { name, args } => name + seq!['('] + spec_args_text(args, args.len() as int)
            + seq![')'],
        SpecExpr::Field { object, field } => spec_expr_text(*object) + seq!['.'] + field,
        SpecExpr::Method { object, method, args } => spec_expr_text(*object) + seq!['.'] + method
            + seq!['('] + spec_args_text(args, args.len() as int) + seq![')'],
    }
}

/// The display text of the first `i` parameter names, separated by commas.
pub open spec fn spec_params_text(params: Seq<Seq<char>>, i: int) -> Seq<char>
    decreases i,
{
    if i <= 0 {
        Seq::empty()
    } else if i == 1 {
        params[0]
    } else {
        spec_params_text(params, i - 1) + seq![',', ' '] + params[i - 1]
    }
}

/// The display text of a statement: a one-line summary, as the original
/// diagnostics print it.
pub open spec fn spec_stmt_text(st: SpecStmt) -> Seq<char> {
    match st {
        SpecStmt::FunctionDef { name, params, .. } => seq!['f', 'n', ' '] + name + seq!['(']
            + spec_params_text(params, params.len() as int) + seq![')'],
        SpecStmt::ClassDef { name } => seq!['c', 'l', 'a', 's', 's', ' '] + name,
        SpecStmt::MethodDef { class_name, method_name, params, .. } => seq!['f', 'n', ' ']
            + class_name + seq![' ', '>', ' '] + method_name + seq!['('] + spec_params_text(
            params,
            params.len() as int,
        ) + seq![')'],
        SpecStmt::Assignment { name, value } => name + seq![' ', '=', ' '] + spec_expr_text(value),
        SpecStmt::If { condition, elif_branches, else_branch, .. } => seq!['i', 'f', ' ']
            + spec_expr_text(condition) + (if elif_branches.len() > 0 {
            seq![' ', '+', ' '] + spec_nat_text(elif_branches.len()) + seq![
                ' ',
                'e',
                'l',
                'i',
                'f',
                '(',
                's',
                ')',
            ]
        } else {
            Seq::empty()
        }) + (if else_branch is Some {
            seq![' ', '+', ' ', 'e', 'l', 's', 'e']
        } else {
            Seq::empty()
        }),
        SpecStmt::While { condition, .. } => seq!['w', 'h', 'i', 'l', 'e', ' '] + spec_expr_text(
            condition,
        ),
        SpecStmt::Expression(e) => spec_expr_text(e),
    }
}

/// The display text of the first `i` statements, one line each.
pub open spec fn spec_program_text(stmts: Seq<SpecStmt>, i: int) -> Seq<char>
    decreases i,
{
    if i <= 0 {
        Seq::empty()
    } else if i == 1 {
        spec_stmt_text(stmts[0])
    } else {
        spec_program_text(stmts, i - 1) + seq!['\n'] + spec_stmt_text(stmts[i - 1])
    }
}

impl Expr {
    /// Appends the display text of `args` (comma separated) to `out`.
    fn push_args_text(out: &mut String, args: &Vec<Expr>)
        ensures
            final(out)@ == old(out)@ + spec_args_text(exprs_view(args@), args@.len() as int),
        decreases args@,
    {
        let ghost spec_args = exprs_view(args@);
        proof {
            lemma_exprs_view(args@);
        }
        let mut i: usize = 0;
        while i < args.len()
            invariant
                i <= args@.len(),
                spec_args == exprs_view(args@),
                spec_args.len() == args@.len(),
                out@ == old(out)@ + spec_args_text(spec_args, i as int),
            decreases args@.len() - i,
        {
            if i > 0 {
                out.push(',');
                out.push(' ');
            }
            let t = args[i].to_text();
            out.append(t.as_str());
            proof {
                lemma_exprs_view(args@);
                assert(spec_args[i as int] == args@[i as int]@);
                assert(out@ =~= old(out)@ + spec_args_text(spec_args, i + 1));
            }
            i += 1;
        }
    }

    /// Returns the display text of the expression.
    pub fn to_text(&self) -> (r: String)
        ensures
            r@ == spec_expr_text(self@),
        decreases self,
    {
        match self {
            Expr::Integer(n) => {
                let mut out = String::new();
                push_i64_text(&mut out, *n);
                proof {
                    assert(Seq::<char>::empty() + spec_i64_text(*n) =~= spec_i64_text(*n));
                }
                out
            },
            Expr::Float(t) => {
                let mut out = String::new();
                out.append(t.as_str());
                proof {
                    assert(Seq::<char>::empty() + t@ =~= t@);
                }
                out
            },
            Expr::String(s) => {
                let mut out = String::new();
                out.push('\'');
                out.append(s.as_str());
                out.push('\'');
                proof {
                    assert(out@ =~= seq!['\''] + s@ + seq!['\'']);
                }
                out
            },
            Expr::Identifier(n) => {
                let mut out = String::new();
                out.append(n.as_str());
                proof {
                    assert(Seq::<char>::empty() + n@ =~= n@);
                }
                out
            },
            Expr::BinaryOp { left, op, right } => {
                let mut out = String::new();
                out.push('(');
                let lt = left.to_text();
                out.append(lt.as_str());
                out.push(' ');
                out.append(op.symbol());
                out.push(' ');
                let rt = right.to_text();
                out.append(rt.as_str());
                out.push(')');
                proof {
                    assert(out@ =~= spec_expr_text(self@));
                }
                out
            },
            Expr::Grouped(inner) => {
                let mut out = String::new();
                out.push('(');
                let it = inner.to_text();
                out.append(it.as_str());
                out.push(')');
                proof {
                    assert(out@ =~= spec_expr_text(self@));
                }
                out
            },
            Expr::FunctionCall { name, args } => {
                let mut out = String::new();
                out.append(name.as_str());
                out.push('(');
                Self::push_args_text(&mut out, args);
                out.push(')');
                proof {
                    lemma_exprs_view(args@);
                    assert(out@ =~= spec_expr_text(self@));
                }
                out
            },
            Expr::FieldAccess { object, field } => {
                let mut out = String::new();
                let ot = object.to_text();
                out.append(ot.as_str());
                out.push('.');
                out.append(field.as_str());
                proof {
                    assert(out@ =~= spec_expr_text(self@));
                }
                out
            },
            Expr::MethodCall { object, method, args } => {
                let mut out = String::new();
                let ot = object.to_text();
                out.append(ot.as_str());
                out.push('.');
                out.append(method.as_str());
                out.push('(');
                Self::push_args_text(&mut out, args);
                out.push(')');
                proof {
                    lemma_exprs_view(args@);
                    assert(out@ =~= spec_expr_text(self@));
                }
                out
            },
        }
    }
}

/// Appends the display text of a parameter list (comma separated) to `out`.
fn push_params_text(out: &mut String, params: &Vec<String>)
    ensures
        final(out)@ == old(out)@ + spec_params_text(params_view(params@), params@.len() as int),
{
    let ghost pv = params_view(params@);
    let mut i: usize = 0;
    while i < params.len()
        invariant
            i <= params@.len(),
            pv == params_view(params@),
            out@ == old(out)@ + spec_params_text(pv, i as int),
        decreases params@.len() - i,
    {
        if i > 0 {
            out.push(',');
            out.push(' ');
        }
        out.append(params[i].as_str());
        proof {
            assert(pv[i as int] == params@[i as int]@);
            assert(out@ =~= old(out)@ + spec_params_text(pv, i + 1));
        }
        i += 1;
    }
}

impl Statement {
    /// Returns the one-line display text of the statement.
    pub fn to_text(&self) -> (r: String)
        ensures
            r@ == spec_stmt_text(self@),
    {
        match self {
            Statement::FunctionDef { name, params, body: _ } => {
                let mut out = String::new();
                out.append("fn ");
                out.append(name.as_str());
                out.push('(');
                push_params_text(&mut out, params);
                out.push(')');
                proof {
                    reveal_strlit("fn ");
                    assert("fn "@ =~= seq!['f', 'n', ' ']);
                    assert(out@ =~= spec_stmt_text(self@));
                }
                out
            },
            Statement::ClassDef { name } => {
                let mut out = String::new();
                out.append("class ");
                out.append(name.as_str());
                proof {
                    reveal_strlit("class ");
                    assert("class "@ =~= seq!['c', 'l', 'a', 's', 's', ' ']);
                    assert(out@ =~= spec_stmt_text(self@));
                }
                out
            },
            Statement::MethodDef { class_name, method_name, params, body: _ } => {
                let mut out = String::new();
                out.append("fn ");
                out.append(class_name.as_str());
                out.append(" > ");
                out.append(method_name.as_str());
                out.push('(');
                push_params_text(&mut out, params);
                out.push(')');
                proof {
                    reveal_strlit("fn ");
                    reveal_strlit(" > ");
                    assert("fn "@ =~= seq!['f', 'n', ' ']);
                    assert(" > "@ =~= seq![' ', '>', ' ']);
                    assert(out@ =~= spec_stmt_text(self@));
                }
                out
            },
            Statement::Assignment { name, value } => {
                let mut out = String::new();
                out.append(name.as_str());
                out.append(" = ");
                let vt = value.to_text();
                out.append(vt.as_str());
                proof {
                    reveal_strlit(" = ");
                    assert(" = "@ =~= seq![' ', '=', ' ']);
                    assert(out@ =~= spec_stmt_text(self@));
                }
                out
            },
            Statement::If { condition, then_branch: _, elif_branches, else_branch } => {
                let mut out = String::new();
                out.append("if ");
                let ct = condition.to_text();
                out.append(ct.as_str());
                if elif_branches.len() > 0 {
                    out.append(" + ");
                    push_usize_text(&mut out, elif_branches.len());
                    out.append(" elif(s)");
                }
                if else_branch.is_some() {
                    out.append(" + else");
                }
                proof {
                    reveal_strlit("if ");
                    reveal_strlit(" + ");
                    reveal_strlit(" elif(s)");
                    reveal_strlit(" + else");
                    assert("if "@ =~= seq!['i', 'f', ' ']);
                    assert(" + "@ =~= seq![' ', '+', ' ']);
                    assert(" elif(s)"@ =~= seq![' ', 'e', 'l', 'i', 'f', '(', 's', ')']);
                    assert(" + else"@ =~= seq![' ', '+', ' ', 'e', 'l', 's', 'e']);
                    lemma_elifs_view(elif_branches@);
                    assert(self@->If_elif_branches.len() == elif_branches@.len());
                    assert(out@ =~= spec_stmt_text(self@));
                }
                out
            },
            Statement::While { condition, body: _ } => {
                let mut out = String::new();
                out.append("while ");
                let ct = condition.to_text();
                out.append(ct.as_str());
                proof {
                    reveal_strlit("while ");
                    assert("while "@ =~= seq!['w', 'h', 'i', 'l', 'e', ' ']);
                    assert(out@ =~= spec_stmt_text(self@));
                }
                out
            },
            Statement::Expression(e) => {
                let t = e.to_text();
                proof {
                    assert(t@ == spec_stmt_text(self@));
                }
                t
            },
        }
    }
}

impl Clone for Program {
    /// Clones the program; the clone's view equals the original's.
    fn clone(&self) -> (res: Self)
        ensures
            res@ == self@,
    {
        let cloned = clone_stmts(&self.statements);
        proof {
            lemma_stmts_view(self.statements@);
            lemma_stmts_view(cloned@);
            assert(stmts_view(cloned@) =~= stmts_view(self.statements@));
        }
        Program { statements: cloned }
    }
}

impl Program {
    /// Returns the display text of the program: one line per statement.
    pub fn to_text(&self) -> (r: String)
        ensures
            r@ == spec_program_text(self@, self@.len() as int),
    {
        let mut out = String::new();
        let ghost pv = self@;
        proof {
            lemma_stmts_view(self.statements@);
        }
        let mut i: usize = 0;
        while i < self.statements.len()
            invariant
                i <= self.statements@.len(),
                pv == stmts_view(self.statements@),
                pv.len() == self.statements@.len(),
                out@ == spec_program_text(pv, i as int),
            decreases self.statements@.len() - i,
        {
            if i > 0 {
                out.push('\n');
            }
            let t = self.statements[i].to_text();
            out.append(t.as_str());
            proof {
                lemma_stmts_view(self.statements@);
                assert(pv[i as int] == self.statements@[i as int]@);
                assert(out@ =~= spec_program_text(pv, i + 1));
            }
            i += 1;
        }
        out
    }
}

} // verus!
