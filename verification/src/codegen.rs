//! The code generator: walks a Grit program tree and emits equivalent
//! Rust source text, with precedence-aware parenthesization, print
//! lowering, implicit returns, and a class-to-struct lowering. Every
//! emitted string is pinned down exactly by a spec function.

use vstd::prelude::*;
use vstd::string::{StrSliceExecFns, StringExecFns};
use crate::parser::ast::{
    elifs_view, exprs_view, lemma_elifs_view, lemma_exprs_view, lemma_stmts_view, spec_op_symbol,
    spec_precedence, stmts_view, BinaryOperator, Expr, Program, SpecExpr, SpecStmt, Statement,
};
use crate::text::{push_i64_text, spec_i64_text};

verus! {

/// What `char::is_uppercase` returns: the result depends on the
/// character alone.
pub uninterp spec fn unicode_uppercase(c: char) -> bool;

/// Relies on char::is_uppercase; the result depends on the character alone.
#[verifier::external_body]
fn char_is_uppercase(c: char) -> (r: bool)
    ensures
        r == unicode_uppercase(c),
{
    c.is_uppercase()
}

/// A string literal's text re-escaped for Rust: every double quote gets a
/// preceding backslash.
pub open spec fn spec_escape_quotes(s: Seq<char>) -> Seq<char>
    decreases s.len(),
{
    if s.len() == 0 {
        Seq::empty()
    } else if s[0] == '"' {
        seq!['\\', '"'] + spec_escape_quotes(s.skip(1))
    } else {
        seq![s[0]] + spec_escape_quotes(s.skip(1))
    }
}

/// A print format string with the `%d` and `%s` placeholders rewritten to
/// Rust's positional placeholder.
pub open spec fn spec_replace_fmt(s: Seq<char>) -> Seq<char>
    decreases s.len(),
{
    if s.len() == 0 {
        Seq::empty()
    } else if s.len() >= 2 && s[0] == '%' && (s[1] == 'd' || s[1] == 's') {
        seq!['{', '}'] + spec_replace_fmt(s.skip(2))
    } else {
        seq![s[0]] + spec_replace_fmt(s.skip(1))
    }
}

/// Whether an emitted binary expression must be parenthesized: its
/// precedence is lower than its parent's, or equal while it stands in
/// the right-hand position.
pub open spec fn spec_needs_parens(prec: u8, parent: Option<u8>, is_right: bool) -> bool {
    match parent {
        Some(pp) => prec < pp || (prec == pp && is_right),
        None => false,
    }
}

/// The emitted Rust text of the first `i` arguments, separated by commas.
pub open spec fn spec_gen_args(args: Seq<SpecExpr>, i: int) -> Seq<char>
    decreases args, i,
{
    if i <= 0 || i > args.len() {
        Seq::empty()
    } else if i == 1 {
        spec_gen_expr(args[0], None, false)
    } else {
        spec_gen_args(args, i - 1) + seq![',', ' '] + spec_gen_expr(args[i - 1], None, false)
    }
}

/// The emitted Rust text of an expression, in the position that `parent`
/// and `is_right` describe.
pub open spec fn spec_gen_expr(e: SpecExpr, parent: Option<u8>, is_right: bool) -> Seq<char>
    decreases e,
{
    match e {
        SpecExpr::Integer(v) => spec_i64_text(v),
        SpecExpr::Float(t) => t,
        SpecExpr::StrLit(s) => seq!['"'] + spec_escape_quotes(s) + seq!['"'],
        SpecExpr::Ident(n) => n,
        SpecExpr::Grouped(inner) => seq!['('] + spec_gen_expr(*inner, None, false) + seq![')'],
        SpecExpr::Binary { left, op, right } => {
            let prec = spec_precedence(op);
            let body = spec_gen_expr(*left, Some(prec), false) + seq![' '] + spec_op_symbol(op)
                + seq![' '] + spec_gen_expr(*right, Some(prec), true);
            if spec_needs_parens(prec, parent, is_right) {
                seq!['('] + body + seq![')']
            } else {
                body
            }
        },
        SpecExpr::Call { name, args } => {
            if name == "to_int"@ && args.len() == 1 {
                seq!['('] + spec_gen_expr(args[0], None, false) + " as i64)"@
            } else if name == "to_float"@ && args.len() == 1 {
                seq!['('] + spec_gen_expr(args[0], None, false) + " as f64)"@
            } else if name == "to_string"@ && args.len() == 1 {
                spec_gen_expr(args[0], None, false) + ".to_string()"@
            } else {
                name + seq!['('] + spec_gen_args(args, args.len() as int) + seq![')']
            }
        },
        SpecExpr::Field { object, field } => spec_gen_expr(*object, None, false) + seq!['.']
            + field,
        SpecExpr::Method { object, method, args } => {
            let is_static = match *object {
                SpecExpr::Ident(cls) => cls.len() > 0 && unicode_uppercase(cls[0]),
                _ => false,
            };
            if is_static {
                (*object)->Ident_0 + seq![':', ':'] + method + seq!['('] + spec_gen_args(
                    args,
                    args.len() as int,
                ) + seq![')']
            } else {
                spec_gen_expr(*object, None, false) + seq!['.'] + method + seq!['(']
                    + spec_gen_args(args, args.len() as int) + seq![')']
            }
        },
    }
}

/// The emitted Rust text of the print arguments after the format string:
/// arguments 1 to `i - 1`, separated by commas.
pub open spec fn spec_gen_vals(args: Seq<SpecExpr>, i: int) -> Seq<char>
    decreases args, i,
{
    if i <= 1 || i > args.len() {
        Seq::empty()
    } else if i == 2 {
        spec_gen_expr(args[1], None, false)
    } else {
        spec_gen_vals(args, i - 1) + seq![',', ' '] + spec_gen_expr(args[i - 1], None, false)
    }
}

/// The emitted `println!` call for a `print(...)` statement.
pub open spec fn spec_gen_print(args: Seq<SpecExpr>) -> Seq<char> {
    if args.len() == 0 {
        "println!();"@
    } else {
        let fmt = match args[0] {
            SpecExpr::StrLit(s) => spec_replace_fmt(s),
            _ => seq!['{', '}'],
        };
        if args.len() == 1 {
            "println!(\""@ + fmt + "\");"@
        } else {
            "println!(\""@ + fmt + "\", "@ + spec_gen_vals(args, args.len() as int) + ");"@
        }
    }
}

/// Whether an assignment target is a `self.<field>` form.
pub open spec fn starts_self_dot(name: Seq<char>) -> bool {
    name.len() >= 5 && name.subrange(0, 5) == "self."@
}

/// The emitted text of the first `i` typed parameters, each as `name: i64`.
pub open spec fn spec_gen_params(params: Seq<Seq<char>>, i: int) -> Seq<char>
    decreases i,
{
    if i <= 0 || i > params.len() {
        Seq::empty()
    } else if i == 1 {
        params[0] + ": i64"@
    } else {
        spec_gen_params(params, i - 1) + ", "@ + params[i - 1] + ": i64"@
    }
}

/// The emitted text of an expression inside a method body: bare
/// identifiers that are neither `self` nor one of the method's
/// parameters become receiver-field reads.
pub open spec fn spec_gen_expr_self(e: SpecExpr, params: Seq<Seq<char>>) -> Seq<char>
    decreases e,
{
    match e {
        SpecExpr::Ident(n) => if n == "self"@ || params.contains(n) {
            spec_gen_expr(e, None, false)
        } else {
            "self."@ + n
        },
        SpecExpr::Binary { left, op, right } => spec_gen_expr_self(*left, params) + seq![' ']
            + spec_op_symbol(op) + seq![' '] + spec_gen_expr_self(*right, params),
        SpecExpr::Field { object, field } => spec_gen_expr_self(*object, params) + seq!['.']
            + field,
        _ => spec_gen_expr(e, None, false),
    }
}

/// The emitted text of a statement inside a method body.
pub open spec fn spec_gen_stmt_self(st: SpecStmt, params: Seq<Seq<char>>) -> Seq<char> {
    match st {
        SpecStmt::Expression(e) => spec_gen_expr_self(e, params) + seq![';'],
        _ => spec_gen_stmt(st),
    }
}

/// The emitted lines of the first `i` statements of a function body, with
/// the trailing bare expression promoted to an implicit return.
pub open spec fn spec_gen_fn_body(body: Seq<SpecStmt>, i: int) -> Seq<char>
    decreases body, i,
{
    if i <= 0 || i > body.len() {
        Seq::empty()
    } else {
        let line = if i - 1 == body.len() - 1 && body[i - 1] is Expression {
            spec_gen_expr(body[i - 1]->Expression_0, None, false)
        } else {
            spec_gen_stmt(body[i - 1])
        };
        spec_gen_fn_body(body, i - 1) + "    "@ + line + seq!['\n']
    }
}

/// The emitted declaration of a free function: parameters and result are
/// 64-bit integers.
pub open spec fn spec_gen_fn_def(st: SpecStmt) -> Seq<char>
    decreases st, 0int,
{
    match st {
        SpecStmt::FunctionDef { name, params, body } => "fn "@ + name + seq!['(']
            + spec_gen_params(params, params.len() as int) + ") -> i64 {\n"@ + spec_gen_fn_body(
            body,
            body.len() as int,
        ) + "}\n"@,
        _ => Seq::empty(),
    }
}

/// The emitted lines of the first `i` statements of a control-flow branch.
pub open spec fn spec_gen_branch(stmts: Seq<SpecStmt>, i: int) -> Seq<char>
    decreases stmts, i,
{
    if i <= 0 || i > stmts.len() {
        Seq::empty()
    } else {
        spec_gen_branch(stmts, i - 1) + "        "@ + spec_gen_stmt(stmts[i - 1]) + seq!['\n']
    }
}

/// The emitted `else if` chains for the first `i` elif branches.
pub open spec fn spec_gen_elifs(elifs: Seq<(SpecExpr, Seq<SpecStmt>)>, i: int) -> Seq<char>
    decreases elifs, i,
{
    if i <= 0 || i > elifs.len() {
        Seq::empty()
    } else {
        spec_gen_elifs(elifs, i - 1) + " else if "@ + spec_gen_expr(elifs[i - 1].0, None, false)
            + " {\n"@ + spec_gen_branch(elifs[i - 1].1, elifs[i - 1].1.len() as int) + "    }"@
    }
}

/// The emitted text of an if statement with its elif and else branches.
pub open spec fn spec_gen_if(st: SpecStmt) -> Seq<char>
    decreases st, 0int,
{
    match st {
        SpecStmt::If { condition, then_branch, elif_branches, else_branch } => "if "@
            + spec_gen_expr(condition, None, false) + " {\n"@ + spec_gen_branch(
            then_branch,
            then_branch.len() as int,
        ) + "    }"@ + spec_gen_elifs(elif_branches, elif_branches.len() as int) + (
        match else_branch {
            Some(b) => " else {\n"@ + spec_gen_branch(b, b.len() as int) + "    }"@,
            None => Seq::empty(),
        }),
        _ => Seq::empty(),
    }
}

/// The emitted text of a while loop.
pub open spec fn spec_gen_while(st: SpecStmt) -> Seq<char>
    decreases st, 0int,
{
    match st {
        SpecStmt::While { condition, body } => "while "@ + spec_gen_expr(condition, None, false)
            + " {\n"@ + spec_gen_branch(body, body.len() as int) + "    }"@,
        _ => Seq::empty(),
    }
}

/// The emitted text of a single statement, as it stands in a function
/// body or the synthesized entry point.
pub open spec fn spec_gen_stmt(st: SpecStmt) -> Seq<char>
    decreases st, 1int,
{
    match st {
        SpecStmt::FunctionDef { .. } => spec_gen_fn_def(st),
        SpecStmt::ClassDef { name } => "// class "@ + name,
        SpecStmt::MethodDef { .. } => Seq::empty(),
        SpecStmt::Assignment { name, value } => "let "@ + name + " = "@ + spec_gen_expr(
            value,
            None,
            false,
        ) + seq![';'],
        SpecStmt::If { .. } => spec_gen_if(st),
        SpecStmt::While { .. } => spec_gen_while(st),
        SpecStmt::Expression(e) => match e {
            SpecExpr::Call { name, args } => if name == "print"@ {
                spec_gen_print(args)
            } else {
                spec_gen_expr(e, None, false) + seq![';']
            },
            _ => spec_gen_expr(e, None, false) + seq![';'],
        },
    }
}

/// Adds a field name to the collection unless it is already there.
pub open spec fn spec_add_field(acc: Seq<Seq<char>>, f: Seq<char>) -> Seq<Seq<char>> {
    if acc.contains(f) {
        acc
    } else {
        acc.push(f)
    }
}

/// Collects the record fields that a statement implies: `self.<field>`
/// assignment targets and bare `self.<field>` reads, in first-seen order.
pub open spec fn spec_cf_stmt(st: SpecStmt, acc: Seq<Seq<char>>) -> Seq<Seq<char>>
    decreases st, 2int,
{
    match st {
        SpecStmt::Assignment { name, .. } => if starts_self_dot(name) {
            spec_add_field(acc, name.skip(5))
        } else {
            acc
        },
        SpecStmt::If { then_branch, elif_branches, else_branch, .. } => {
            let acc1 = spec_cf_stmts(then_branch, acc, then_branch.len() as int);
            let acc2 = spec_cf_elifs(elif_branches, acc1, elif_branches.len() as int);
            match else_branch {
                Some(b) => spec_cf_stmts(b, acc2, b.len() as int),
                None => acc2,
            }
        },
        SpecStmt::While { body, .. } => spec_cf_stmts(body, acc, body.len() as int),
        SpecStmt::Expression(e) => match e {
            SpecExpr::Field { object, field } => match *object {
                SpecExpr::Ident(n) => if n == "self"@ {
                    spec_add_field(acc, field)
                } else {
                    acc
                },
                _ => acc,
            },
            _ => acc,
        },
        _ => acc,
    }
}

/// Folds the field collection over the first `i` statements.
pub open spec fn spec_cf_stmts(stmts: Seq<SpecStmt>, acc: Seq<Seq<char>>, i: int) -> Seq<Seq<char>>
    decreases stmts, 0int, i,
{
    if i <= 0 || i > stmts.len() {
        acc
    } else {
        spec_cf_stmt(stmts[i - 1], spec_cf_stmts(stmts, acc, i - 1))
    }
}

/// Folds the field collection over the first `i` elif branches.
pub open spec fn spec_cf_elifs(
    elifs: Seq<(SpecExpr, Seq<SpecStmt>)>,
    acc: Seq<Seq<char>>,
    i: int,
) -> Seq<Seq<char>>
    decreases elifs, 1int, i,
{
    if i <= 0 || i > elifs.len() {
        acc
    } else {
        spec_cf_stmts(elifs[i - 1].1, spec_cf_elifs(elifs, acc, i - 1), elifs[i - 1].1.len() as int)
    }
}

/// Folds the field collection over the bodies of the first `i` method
/// statements of a class.
pub open spec fn spec_cf_methods(methods: Seq<SpecStmt>, acc: Seq<Seq<char>>, i: int) -> Seq<
    Seq<char>,
>
    decreases i,
{
    if i <= 0 || i > methods.len() {
        acc
    } else {
        let prev = spec_cf_methods(methods, acc, i - 1);
        match methods[i - 1] {
            SpecStmt::MethodDef { body, .. } => spec_cf_stmts(body, prev, body.len() as int),
            _ => prev,
        }
    }
}

/// The emitted field declarations of a record type, one per line.
pub open spec fn spec_gen_fields(fields: Seq<Seq<char>>, i: int) -> Seq<char>
    decreases i,
{
    if i <= 0 || i > fields.len() {
        Seq::empty()
    } else {
        spec_gen_fields(fields, i - 1) + "    "@ + fields[i - 1] + ": i64,\n"@
    }
}

/// The emitted initializers of the constructor's output record: one line
/// per `self.<field>` assignment of the constructor body, in order.
pub open spec fn spec_gen_ctor_fields(body: Seq<SpecStmt>, i: int) -> Seq<char>
    decreases i,
{
    if i <= 0 || i > body.len() {
        Seq::empty()
    } else {
        let prev = spec_gen_ctor_fields(body, i - 1);
        match body[i - 1] {
            SpecStmt::Assignment { name, value } => if starts_self_dot(name) {
                prev + "            "@ + name.skip(5) + ": "@ + spec_gen_expr(value, None, false)
                    + ",\n"@
            } else {
                prev
            },
            _ => prev,
        }
    }
}

/// The emitted lines of the first `i` statements of an instance method's
/// body: `self.<field>` assignments are dropped, the trailing bare
/// expression becomes the return value, and bare non-parameter
/// identifiers become receiver-field reads.
pub open spec fn spec_gen_method_body(body: Seq<SpecStmt>, i: int, params: Seq<Seq<char>>)
    -> Seq<char>
    decreases i,
{
    if i <= 0 || i > body.len() {
        Seq::empty()
    } else {
        let prev = spec_gen_method_body(body, i - 1, params);
        let st = body[i - 1];
        if st matches SpecStmt::Assignment { name, .. } && starts_self_dot(name) {
            prev
        } else {
            let line = if i - 1 == body.len() - 1 && st is Expression {
                spec_gen_expr_self(st->Expression_0, params)
            } else {
                spec_gen_stmt_self(st, params)
            };
            prev + "        "@ + line + seq!['\n']
        }
    }
}

/// The emitted text of one method inside an impl block: `new` becomes a
/// constructor returning the record, the rest become instance functions.
pub open spec fn spec_gen_method(
    method_name: Seq<char>,
    params: Seq<Seq<char>>,
    body: Seq<SpecStmt>,
) -> Seq<char> {
    if method_name == "new"@ {
        "    fn "@ + method_name + seq!['('] + spec_gen_params(params, params.len() as int)
            + ") -> Self {\n"@ + "        Self {\n"@ + spec_gen_ctor_fields(
            body,
            body.len() as int,
        ) + "        }\n"@ + "    }\n\n"@
    } else {
        "    fn "@ + method_name + seq!['('] + (if params.len() == 0 {
            "&self"@
        } else {
            "&self, "@ + spec_gen_params(params, params.len() as int)
        }) + ") -> i64 {\n"@ + spec_gen_method_body(body, body.len() as int, params)
            + "    }\n\n"@
    }
}

/// The emitted text of the first `i` methods of an impl block.
pub open spec fn spec_gen_methods(methods: Seq<SpecStmt>, i: int) -> Seq<char>
    decreases i,
{
    if i <= 0 || i > methods.len() {
        Seq::empty()
    } else {
        spec_gen_methods(methods, i - 1) + (match methods[i - 1] {
            SpecStmt::MethodDef { method_name, params, body, .. } => spec_gen_method(
                method_name,
                params,
                body,
            ),
            _ => Seq::empty(),
        })
    }
}

/// The emitted record type and impl block of one class.
pub open spec fn spec_gen_class(name: Seq<char>, methods: Seq<SpecStmt>) -> Seq<char> {
    let fields = spec_cf_methods(methods, Seq::empty(), methods.len() as int);
    "#[derive(Clone)]\nstruct "@ + name + " {\n"@ + spec_gen_fields(fields, fields.len() as int)
        + "}\n\n"@ + "impl "@ + name + " {\n"@ + spec_gen_methods(methods, methods.len() as int)
        + "}\n\n"@
}

/// The index of a class in the collection, or -1 when it is not there.
pub open spec fn spec_class_index(acc: Seq<(Seq<char>, Seq<SpecStmt>)>, name: Seq<char>) -> int
    decreases acc.len(),
{
    if acc.len() == 0 {
        -1
    } else if acc[0].0 == name {
        0
    } else {
        let r = spec_class_index(acc.skip(1), name);
        if r < 0 {
            -1
        } else {
            r + 1
        }
    }
}

/// Adds one statement to the class collection: a class definition opens
/// an entry, a method definition joins its class's entry (opening it if
/// needed), anything else is ignored.
pub open spec fn spec_classes_add(acc: Seq<(Seq<char>, Seq<SpecStmt>)>, st: SpecStmt) -> Seq<
    (Seq<char>, Seq<SpecStmt>),
> {
    match st {
        SpecStmt::ClassDef { name } => if spec_class_index(acc, name) >= 0 {
            acc
        } else {
            acc.push((name, Seq::empty()))
        },
        SpecStmt::MethodDef { class_name, .. } => {
            let i = spec_class_index(acc, class_name);
            if i >= 0 {
                acc.update(i, (acc[i].0, acc[i].1.push(st)))
            } else {
                acc.push((class_name, seq![st]))
            }
        },
        _ => acc,
    }
}

/// The class collection of the first `i` statements, grouped by class
/// name in first-seen order.
pub open spec fn spec_classes(stmts: Seq<SpecStmt>, i: int) -> Seq<(Seq<char>, Seq<SpecStmt>)>
    decreases i,
{
    if i <= 0 || i > stmts.len() {
        Seq::empty()
    } else {
        spec_classes_add(spec_classes(stmts, i - 1), stmts[i - 1])
    }
}

/// The emitted record types and impl blocks of the first `i` classes.
pub open spec fn spec_gen_classes(classes: Seq<(Seq<char>, Seq<SpecStmt>)>, i: int) -> Seq<char>
    decreases i,
{
    if i <= 0 || i > classes.len() {
        Seq::empty()
    } else {
        spec_gen_classes(classes, i - 1) + spec_gen_class(classes[i - 1].0, classes[i - 1].1)
    }
}

/// The emitted free-function declarations among the first `i` statements.
pub open spec fn spec_gen_free_fns(stmts: Seq<SpecStmt>, i: int) -> Seq<char>
    decreases i,
{
    if i <= 0 || i > stmts.len() {
        Seq::empty()
    } else {
        spec_gen_free_fns(stmts, i - 1) + (if stmts[i - 1] is FunctionDef {
            spec_gen_stmt(stmts[i - 1]) + seq!['\n']
        } else {
            Seq::empty()
        })
    }
}

/// The emitted entry-point body lines of the first `i` statements:
/// everything that is not a function, class or method definition.
pub open spec fn spec_gen_main_body(stmts: Seq<SpecStmt>, i: int) -> Seq<char>
    decreases i,
{
    if i <= 0 || i > stmts.len() {
        Seq::empty()
    } else {
        spec_gen_main_body(stmts, i - 1) + (match stmts[i - 1] {
            SpecStmt::FunctionDef { .. } => Seq::empty(),
            SpecStmt::ClassDef { .. } => Seq::empty(),
            SpecStmt::MethodDef { .. } => Seq::empty(),
            _ => "    "@ + spec_gen_stmt(stmts[i - 1]) + seq!['\n'],
        })
    }
}

/// The emitted Rust program of a whole Grit program: a lone bare
/// expression becomes a print-the-result entry point; otherwise class
/// lowerings, then free functions, then an entry point holding the
/// remaining statements.
pub open spec fn spec_gen_program(prog: Seq<SpecStmt>) -> Seq<char> {
    if prog.len() == 1 && prog[0] is Expression && !(prog[0]->Expression_0 is Call) {
        "fn main() {\n    let result = "@ + spec_gen_expr(prog[0]->Expression_0, None, false)
            + ";\n    println!(\"{}\", result);\n}\n"@
    } else {
        let classes = spec_classes(prog, prog.len() as int);
        spec_gen_classes(classes, classes.len() as int) + spec_gen_free_fns(
            prog,
            prog.len() as int,
        ) + "fn main() {\n"@ + spec_gen_main_body(prog, prog.len() as int) + "}\n"@
    }
}

/// Generates Rust source code from Grit ASTs.
pub struct CodeGenerator;

impl CodeGenerator {
    /// Generates a Rust expression string equivalent to the provided AST.
    pub fn generate_expression(ast: &Expr) -> (r: String)
        ensures
            r@ == spec_gen_expr(ast@, None, false),
    {
        Self::generate_expression_with_context(ast, None, false)
    }

    /// Appends the re-escaped text of a string literal to `out`.
    fn push_escaped(out: &mut String, s: &str)
        ensures
            final(out)@ == old(out)@ + spec_escape_quotes(s@),
    {
        let n = s.unicode_len();
        let mut i: usize = 0;
        while i < n
            invariant
                i <= n,
                n == s@.len(),
                out@ == old(out)@ + spec_escape_quotes(s@.subrange(0, i as int)),
            decreases n - i,
        {
            let c = s.get_char(i);
            if c == '"' {
                out.push('\\');
                out.push('"');
            } else {
                out.push(c);
            }
            proof {
                lemma_escape_quotes_snoc(s@, i as int);
                if c == '"' {
                    assert(out@ =~= old(out)@ + spec_escape_quotes(s@.subrange(0, i + 1)));
                } else {
                    assert(out@ =~= old(out)@ + spec_escape_quotes(s@.subrange(0, i + 1)));
                }
            }
            i += 1;
        }
        proof {
            assert(s@.subrange(0, n as int) =~= s@);
        }
    }

    /// Appends the comma-separated emitted text of `args` to `out`.
    fn push_gen_args(out: &mut String, args: &Vec<Expr>)
        ensures
            final(out)@ == old(out)@ + spec_gen_args(exprs_view(args@), args@.len() as int),
        decreases args@, 1int,
    {
        let ghost spec_args = exprs_view(args@);
        proof {
            lemma_exprs_view(args@);
        }
        let mut i: usize = 0;
        while i < args.len()
            invariant
                i <= args@.len(),
                spec_args == exprs_view(args@),
                spec_args.len() == args@.len(),
                out@ == old(out)@ + spec_gen_args(spec_args, i as int),
            decreases args@.len() - i,
        {
            if i > 0 {
                out.push(',');
                out.push(' ');
            }
            let t = Self::generate_expression_with_context(&args[i], None, false);
            out.append(t.as_str());
            proof {
                lemma_exprs_view(args@);
                assert(spec_args[i as int] == args@[i as int]@);
                assert(out@ =~= old(out)@ + spec_gen_args(spec_args, i + 1));
            }
            i += 1;
        }
    }

    /// Emits an expression in the position that `parent_precedence` and
    /// `is_right_child` describe.
    fn generate_expression_with_context(
        ast: &Expr,
        parent_precedence: Option<u8>,
        is_right_child: bool,
    ) -> (r: String)
        ensures
            r@ == spec_gen_expr(ast@, parent_precedence, is_right_child),
        decreases ast, 0int,
    {
        match ast {
            Expr::Integer(value) => {
                let mut out = String::new();
                push_i64_text(&mut out, *value);
                proof {
                    assert(Seq::<char>::empty() + spec_i64_text(*value) =~= spec_i64_text(
                        *value,
                    ));
                }
                out
            },
            Expr::Float(t) => {
                let mut out = String::new();
                out.append(t.as_str());
                proof {
                    assert(Seq::<char>::empty() + t@ =~= t@);
                }
                out
            },
            Expr::String(s) => {
                let mut out = String::new();
                out.push('"');
                Self::push_escaped(&mut out, s.as_str());
                out.push('"');
                proof {
                    assert(out@ =~= spec_gen_expr(ast@, parent_precedence, is_right_child));
                }
                out
            },
            Expr::Identifier(name) => {
                let mut out = String::new();
                out.append(name.as_str());
                proof {
                    assert(Seq::<char>::empty() + name@ =~= name@);
                }
                out
            },
            Expr::Grouped(expr) => {
                let mut out = String::new();
                out.push('(');
                let t = Self::generate_expression_with_context(expr, None, false);
                out.append(t.as_str());
                out.push(')');
                proof {
                    assert(out@ =~= spec_gen_expr(ast@, parent_precedence, is_right_child));
                }
                out
            },
            Expr::BinaryOp { left, op, right } => {
                let precedence = op.precedence();
                let left_str = Self::generate_expression_with_context(
                    left,
                    Some(precedence),
                    false,
                );
                let right_str = Self::generate_expression_with_context(
                    right,
                    Some(precedence),
                    true,
                );

                let mut body = String::new();
                body.append(left_str.as_str());
                body.push(' ');
                body.append(op.symbol());
                body.push(' ');
                body.append(right_str.as_str());

                let needs_parens = match parent_precedence {
                    Some(parent) => precedence < parent || (precedence == parent
                        && is_right_child),
                    None => false,
                };

                if needs_parens {
                    let mut out = String::new();
                    out.push('(');
                    out.append(body.as_str());
                    out.push(')');
                    proof {
                        assert(out@ =~= spec_gen_expr(ast@, parent_precedence, is_right_child));
                    }
                    out
                } else {
                    proof {
                        assert(body@ =~= spec_gen_expr(ast@, parent_precedence, is_right_child));
                    }
                    body
                }
            },
            Expr::FunctionCall { name, args } => {
                // Type-conversion built-ins lower to casts or stringification.
                if args.len() == 1 && crate::text::str_eq(name.as_str(), "to_int") {
                    let mut out = String::new();
                    out.push('(');
                    let t = Self::generate_expression_with_context(&args[0], None, false);
                    out.append(t.as_str());
                    out.append(" as i64)");
                    proof {
                        reveal_strlit("to_int");
                        reveal_strlit(" as i64)");
                        lemma_exprs_view(args@);
                        assert(out@ =~= spec_gen_expr(ast@, parent_precedence, is_right_child));
                    }
                    out
                } else if args.len() == 1 && crate::text::str_eq(name.as_str(), "to_float") {
                    let mut out = String::new();
                    out.push('(');
                    let t = Self::generate_expression_with_context(&args[0], None, false);
                    out.append(t.as_str());
                    out.append(" as f64)");
                    proof {
                        reveal_strlit("to_float");
                        reveal_strlit(" as f64)");
                        lemma_exprs_view(args@);
                        assert(out@ =~= spec_gen_expr(ast@, parent_precedence, is_right_child));
                    }
                    out
                } else if args.len() == 1 && crate::text::str_eq(name.as_str(), "to_string") {
                    let mut out = String::new();
                    let t = Self::generate_expression_with_context(&args[0], None, false);
                    out.append(t.as_str());
                    out.append(".to_string()");
                    proof {
                        reveal_strlit("to_string");
                        reveal_strlit(".to_string()");
                        lemma_exprs_view(args@);
                        assert(Seq::<char>::empty() + spec_gen_expr(args@[0]@, None, false)
                            =~= spec_gen_expr(args@[0]@, None, false));
                        assert(out@ =~= spec_gen_expr(ast@, parent_precedence, is_right_child));
                    }
                    out
                } else {
                    let mut out = String::new();
                    out.append(name.as_str());
                    out.push('(');
                    Self::push_gen_args(&mut out, args);
                    out.push(')');
                    proof {
                        reveal_strlit("to_int");
                        reveal_strlit("to_float");
                        reveal_strlit("to_string");
                        lemma_exprs_view(args@);
                        assert(out@ =~= spec_gen_expr(ast@, parent_precedence, is_right_child));
                    }
                    out
                }
            },
            Expr::FieldAccess { object, field } => {
                let mut out = String::new();
                let t = Self::generate_expression_with_context(object, None, false);
                out.append(t.as_str());
                out.push('.');
                out.append(field.as_str());
                proof {
                    assert(out@ =~= spec_gen_expr(ast@, parent_precedence, is_right_child));
                }
                out
            },
            Expr::MethodCall { object, method, args } => {
                // A capitalized identifier receiver is a static call on the
                // class: ClassName::method(args).
                let is_static = match &**object {
                    Expr::Identifier(class_name) => {
                        if class_name.as_str().unicode_len() > 0 {
                            char_is_uppercase(class_name.as_str().get_char(0))
                        } else {
                            false
                        }
                    },
                    _ => false,
                };
                if is_static {
                    let mut out = String::new();
                    match &**object {
                        Expr::Identifier(class_name) => {
                            out.append(class_name.as_str());
                        },
                        _ => {},
                    }
                    out.push(':');
                    out.push(':');
                    out.append(method.as_str());
                    out.push('(');
                    Self::push_gen_args(&mut out, args);
                    out.push(')');
                    proof {
                        lemma_exprs_view(args@);
                        match &**object {
                            Expr::Identifier(class_name) => {
                                assert((**object)@ == SpecExpr::Ident(class_name@));
                                assert(out@ =~= class_name@ + seq![':', ':'] + method@ + seq!['(']
                                    + spec_gen_args(exprs_view(args@), args@.len() as int) + seq![
                                    ')',
                                ]);
                            },
                            _ => {
                                assert(false);
                            },
                        }
                        assert(out@ =~= spec_gen_expr(ast@, parent_precedence, is_right_child));
                    }
                    out
                } else {
                    let mut out = String::new();
                    let t = Self::generate_expression_with_context(object, None, false);
                    out.append(t.as_str());
                    out.push('.');
                    out.append(method.as_str());
                    out.push('(');
                    Self::push_gen_args(&mut out, args);
                    out.push(')');
                    proof {
                        lemma_exprs_view(args@);
                        assert(out@ =~= spec_gen_expr(ast@, parent_precedence, is_right_child));
                    }
                    out
                }
            },
        }
    }
}

/// The views of the entries of a class collection, in order.
pub open spec fn classes_vec_view(v: Seq<(String, Vec<Statement>)>) -> Seq<(Seq<char>, Seq<SpecStmt>)>
    decreases v,
{
    if v.len() == 0 {
        Seq::empty()
    } else {
        seq![(v[0].0@, stmts_view(v[0].1@))] + classes_vec_view(v.skip(1))
    }
}

/// The length and elements of a viewed class collection.
proof fn lemma_classes_vec_view(v: Seq<(String, Vec<Statement>)>)
    ensures
        classes_vec_view(v).len() == v.len(),
        forall|i: int| #![trigger classes_vec_view(v)[i]] 0 <= i < v.len() ==> classes_vec_view(
            v,
        )[i] == (v[i].0@, stmts_view(v[i].1@)),
    decreases v,
{
    if v.len() > 0 {
        lemma_classes_vec_view(v.skip(1));
        assert forall|i: int| #![trigger classes_vec_view(v)[i]] 0 <= i < v.len() implies
            classes_vec_view(v)[i] == (v[i].0@, stmts_view(v[i].1@)) by {
            if i > 0 {
                assert(v.skip(1)[i - 1] == v[i]);
                assert(classes_vec_view(v) == seq![(v[0].0@, stmts_view(v[0].1@))]
                    + classes_vec_view(v.skip(1)));
                assert((seq![(v[0].0@, stmts_view(v[0].1@))] + classes_vec_view(v.skip(1)))[i]
                    == classes_vec_view(v.skip(1))[i - 1]);
            }
        }
    }
}

impl CodeGenerator {
    /// Appends the format string with `%d`/`%s` rewritten to `{}`.
    fn push_replaced_fmt(out: &mut String, s: &str)
        ensures
            final(out)@ == old(out)@ + spec_replace_fmt(s@),
    {
        let n = s.unicode_len();
        proof {
            assert(s@.skip(0) =~= s@);
            assert(out@.skip(old(out)@.len() as int) =~= Seq::<char>::empty());
            assert(Seq::<char>::empty() + spec_replace_fmt(s@) =~= spec_replace_fmt(s@));
            assert(out@.subrange(0, old(out)@.len() as int) =~= old(out)@);
        }
        let mut i: usize = 0;
        while i < n
            invariant
                i <= n,
                n == s@.len(),
                spec_replace_fmt(s@) == (out@.skip(old(out)@.len() as int)) + spec_replace_fmt(
                    s@.skip(i as int),
                ),
                out@.len() >= old(out)@.len(),
                out@.subrange(0, old(out)@.len() as int) == old(out)@,
            decreases n - i,
        {
            let ghost produced = out@.skip(old(out)@.len() as int);
            let c = s.get_char(i);
            let two = if c == '%' && i + 1 < n {
                let c2 = s.get_char(i + 1);
                c2 == 'd' || c2 == 's'
            } else {
                false
            };
            proof {
                assert(s@.skip(i as int)[0] == s@[i as int]);
                if i + 1 < n {
                    assert(s@.skip(i as int)[1] == s@[i + 1]);
                }
                assert(s@.skip(i as int).skip(1) =~= s@.skip(i + 1));
                if i + 2 <= n {
                    assert(s@.skip(i as int).skip(2) =~= s@.skip(i + 2));
                }
            }
            if two {
                out.push('{');
                out.push('}');
                proof {
                    assert(spec_replace_fmt(s@.skip(i as int)) == seq!['{', '}']
                        + spec_replace_fmt(s@.skip(i + 2)));
                    assert(out@.skip(old(out)@.len() as int) =~= produced + seq!['{', '}']);
                    assert(produced + (seq!['{', '}'] + spec_replace_fmt(s@.skip(i + 2))) =~= (
                    produced + seq!['{', '}']) + spec_replace_fmt(s@.skip(i + 2)));
                    assert(out@.subrange(0, old(out)@.len() as int) =~= old(out)@);
                }
                i += 2;
            } else {
                out.push(c);
                proof {
                    assert(spec_replace_fmt(s@.skip(i as int)) == seq![s@[i as int]]
                        + spec_replace_fmt(s@.skip(i + 1)));
                    assert(out@.skip(old(out)@.len() as int) =~= produced + seq![s@[i as int]]);
                    assert(produced + (seq![s@[i as int]] + spec_replace_fmt(s@.skip(i + 1))) =~= (
                    produced + seq![s@[i as int]]) + spec_replace_fmt(s@.skip(i + 1)));
                    assert(out@.subrange(0, old(out)@.len() as int) =~= old(out)@);
                }
                i += 1;
            }
        }
        proof {
            assert(s@.skip(n as int) =~= Seq::<char>::empty());
            assert(spec_replace_fmt(Seq::<char>::empty()) =~= Seq::<char>::empty());
            assert((out@.skip(old(out)@.len() as int)) + Seq::<char>::empty() =~= out@.skip(old(out)@.len() as int));
            assert(old(out)@ + (out@.skip(old(out)@.len() as int)) =~= out@);
        }
    }

    /// Generates a `println!` call from the arguments of `print(...)`.
    fn generate_print_call(args: &Vec<Expr>) -> (r: String)
        ensures
            r@ == spec_gen_print(exprs_view(args@)),
    {
        proof {
            lemma_exprs_view(args@);
        }
        if args.len() == 0 {
            let mut out = String::new();
            out.append("println!();");
            proof {
                reveal_strlit("println!();");
                assert(Seq::<char>::empty() + "println!();"@ =~= "println!();"@);
            }
            return out;
        }

        let mut out = String::new();
        out.append("println!(\"");
        match &args[0] {
            Expr::String(s) => {
                Self::push_replaced_fmt(&mut out, s.as_str());
            },
            _ => {
                out.push('{');
                out.push('}');
            },
        }
        proof {
            reveal_strlit("println!(\"");
            assert(exprs_view(args@)[0] == args@[0]@);
        }

        if args.len() == 1 {
            out.append("\");");
            proof {
                reveal_strlit("\");");
                assert(out@ =~= spec_gen_print(exprs_view(args@)));
            }
            return out;
        }

        out.append("\", ");
        let ghost spec_args = exprs_view(args@);
        let ghost fmt_part = out@;
        let mut i: usize = 1;
        while i < args.len()
            invariant
                1 <= i <= args@.len(),
                spec_args == exprs_view(args@),
                spec_args.len() == args@.len(),
                out@ == fmt_part + spec_gen_vals(spec_args, i as int),
            decreases args@.len() - i,
        {
            if i > 1 {
                out.push(',');
                out.push(' ');
            }
            let t = Self::generate_expression_with_context(&args[i], None, false);
            out.append(t.as_str());
            proof {
                lemma_exprs_view(args@);
                assert(spec_args[i as int] == args@[i as int]@);
                assert(out@ =~= fmt_part + spec_gen_vals(spec_args, i + 1));
            }
            i += 1;
        }
        out.append(");");
        proof {
            reveal_strlit("\", ");
            reveal_strlit(");");
            assert(out@ =~= spec_gen_print(exprs_view(args@)));
        }
        out
    }

    /// Appends the emitted lines of a control-flow branch to `out`.
    fn push_branch(out: &mut String, stmts: &Vec<Statement>)
        ensures
            final(out)@ == old(out)@ + spec_gen_branch(stmts_view(stmts@), stmts@.len() as int),
        decreases stmts@, 0int,
    {
        let ghost sv = stmts_view(stmts@);
        proof {
            lemma_stmts_view(stmts@);
        }
        let mut i: usize = 0;
        while i < stmts.len()
            invariant
                i <= stmts@.len(),
                sv == stmts_view(stmts@),
                sv.len() == stmts@.len(),
                out@ == old(out)@ + spec_gen_branch(sv, i as int),
            decreases stmts@.len() - i,
        {
            out.append("        ");
            let t = Self::generate_statement(&stmts[i]);
            out.append(t.as_str());
            out.push('\n');
            proof {
                reveal_strlit("        ");
                lemma_stmts_view(stmts@);
                assert(sv[i as int] == stmts@[i as int]@);
                assert(out@ =~= old(out)@ + spec_gen_branch(sv, i + 1));
            }
            i += 1;
        }
    }

    /// Appends one emitted `else if` chain link to `out`.
    fn push_elif_pair(out: &mut String, pair: &(Expr, Vec<Statement>))
        ensures
            final(out)@ == old(out)@ + " else if "@ + spec_gen_expr(pair.0@, None, false)
                + " {\n"@ + spec_gen_branch(stmts_view(pair.1@), pair.1@.len() as int) + "    }"@,
        decreases pair, 0int,
    {
        out.append(" else if ");
        let et = Self::generate_expression_with_context(&pair.0, None, false);
        out.append(et.as_str());
        out.append(" {\n");
        Self::push_branch(out, &pair.1);
        out.append("    }");
        proof {
            reveal_strlit(" else if ");
            reveal_strlit(" {\n");
            reveal_strlit("    }");
        }
    }

    /// Appends the emitted `else if` chains of all elif branches to `out`.
    fn push_elifs(out: &mut String, elifs: &Vec<(Expr, Vec<Statement>)>)
        ensures
            final(out)@ == old(out)@ + spec_gen_elifs(elifs_view(elifs@), elifs@.len() as int),
        decreases elifs@, 0int,
    {
        let ghost ev = elifs_view(elifs@);
        proof {
            lemma_elifs_view(elifs@);
        }
        let mut i: usize = 0;
        while i < elifs.len()
            invariant
                i <= elifs@.len(),
                ev == elifs_view(elifs@),
                ev.len() == elifs@.len(),
                out@ == old(out)@ + spec_gen_elifs(ev, i as int),
            decreases elifs@.len() - i,
        {
            Self::push_elif_pair(out, &elifs[i]);
            proof {
                lemma_elifs_view(elifs@);
                lemma_stmts_view(elifs@[i as int].1@);
                assert(ev[i as int] == (elifs@[i as int].0@, stmts_view(elifs@[i as int].1@)));
                assert(out@ =~= old(out)@ + spec_gen_elifs(ev, i + 1));
            }
            i += 1;
        }
    }

    /// Generates the Rust text of an if statement.
    fn generate_if_statement(stmt: &Statement) -> (r: String)
        requires
            stmt is If,
        ensures
            r@ == spec_gen_if(stmt@),
        decreases stmt, 0int,
    {
        match stmt {
            Statement::If { condition, then_branch, elif_branches, else_branch } => {
                let mut out = String::new();
                out.append("if ");
                let ct = Self::generate_expression_with_context(condition, None, false);
                out.append(ct.as_str());
                out.append(" {\n");
                Self::push_branch(&mut out, then_branch);
                out.append("    }");
                proof {
                    reveal_strlit("if ");
                    reveal_strlit(" {\n");
                    reveal_strlit("    }");
                    lemma_stmts_view(then_branch@);
                }

                Self::push_elifs(&mut out, elif_branches);
                proof {
                    lemma_elifs_view(elif_branches@);
                }

                match else_branch {
                    Some(else_body) => {
                        out.append(" else {\n");
                        Self::push_branch(&mut out, else_body);
                        out.append("    }");
                        proof {
                            reveal_strlit(" else {\n");
                            reveal_strlit("    }");
                            lemma_stmts_view(then_branch@);
                            lemma_elifs_view(elif_branches@);
                            lemma_stmts_view(else_body@);
                            assert(out@ =~= spec_gen_if(stmt@));
                        }
                    },
                    None => {
                        proof {
                            lemma_stmts_view(then_branch@);
                            lemma_elifs_view(elif_branches@);
                            assert(out@ + Seq::<char>::empty() =~= out@);
                            assert(out@ =~= spec_gen_if(stmt@));
                        }
                    },
                }
                out
            },
            _ => {
                proof {
                    assert(false);
                }
                String::new()
            },
        }
    }

    /// Generates the Rust text of a while loop.
    fn generate_while_statement(stmt: &Statement) -> (r: String)
        requires
            stmt is While,
        ensures
            r@ == spec_gen_while(stmt@),
        decreases stmt, 0int,
    {
        match stmt {
            Statement::While { condition, body } => {
                let mut out = String::new();
                out.append("while ");
                let ct = Self::generate_expression_with_context(condition, None, false);
                out.append(ct.as_str());
                out.append(" {\n");
                Self::push_branch(&mut out, body);
                out.append("    }");
                proof {
                    reveal_strlit("while ");
                    reveal_strlit(" {\n");
                    reveal_strlit("    }");
                    lemma_stmts_view(body@);
                    assert(out@ =~= spec_gen_while(stmt@));
                }
                out
            },
            _ => {
                proof {
                    assert(false);
                }
                String::new()
            },
        }
    }

    /// Appends the emitted lines of a function body to `out`, with the
    /// trailing bare expression promoted to an implicit return.
    fn push_fn_body(out: &mut String, body: &Vec<Statement>)
        ensures
            final(out)@ == old(out)@ + spec_gen_fn_body(stmts_view(body@), body@.len() as int),
        decreases body@, 0int,
    {
        let ghost bv = stmts_view(body@);
        proof {
            lemma_stmts_view(body@);
        }
        let mut i: usize = 0;
        while i < body.len()
            invariant
                i <= body@.len(),
                bv == stmts_view(body@),
                bv.len() == body@.len(),
                out@ == old(out)@ + spec_gen_fn_body(bv, i as int),
            decreases body@.len() - i,
        {
            out.append("    ");
            let is_last = i == body.len() - 1;
            let line = match &body[i] {
                Statement::Expression(expr) if is_last => Self::generate_expression_with_context(
                    expr,
                    None,
                    false,
                ),
                other => Self::generate_statement(other),
            };
            out.append(line.as_str());
            out.push('\n');
            proof {
                reveal_strlit("    ");
                lemma_stmts_view(body@);
                assert(bv[i as int] == body@[i as int]@);
                assert(out@ =~= old(out)@ + spec_gen_fn_body(bv, i + 1));
            }
            i += 1;
        }
    }

    /// Generates the Rust declaration of a free function, with the
    /// trailing bare expression promoted to an implicit return.
    fn generate_function_def(stmt: &Statement) -> (r: String)
        requires
            stmt is FunctionDef,
        ensures
            r@ == spec_gen_fn_def(stmt@),
        decreases stmt, 0int,
    {
        match stmt {
            Statement::FunctionDef { name, params, body } => {
                let mut out = String::new();
                out.append("fn ");
                out.append(name.as_str());
                out.push('(');
                Self::push_typed_params(&mut out, params);
                out.append(") -> i64 {\n");

                Self::push_fn_body(&mut out, body);
                out.append("}\n");
                proof {
                    reveal_strlit("fn ");
                    reveal_strlit(") -> i64 {\n");
                    reveal_strlit("}\n");
                    lemma_stmts_view(body@);
                    assert(out@ =~= spec_gen_fn_def(stmt@));
                }
                out
            },
            _ => {
                proof {
                    assert(false);
                }
                String::new()
            },
        }
    }

    /// Appends the typed parameter list, each as `name: i64`.
    fn push_typed_params(out: &mut String, params: &Vec<String>)
        ensures
            final(out)@ == old(out)@ + spec_gen_params(
                crate::parser::ast::params_view(params@),
                params@.len() as int,
            ),
    {
        let ghost pv = crate::parser::ast::params_view(params@);
        let mut i: usize = 0;
        while i < params.len()
            invariant
                i <= params@.len(),
                pv == crate::parser::ast::params_view(params@),
                pv.len() == params@.len(),
                out@ == old(out)@ + spec_gen_params(pv, i as int),
            decreases params@.len() - i,
        {
            if i > 0 {
                out.append(", ");
            }
            out.append(params[i].as_str());
            out.append(": i64");
            proof {
                reveal_strlit(", ");
                reveal_strlit(": i64");
                assert(pv[i as int] == params@[i as int]@);
                assert(out@ =~= old(out)@ + spec_gen_params(pv, i + 1));
            }
            i += 1;
        }
    }

    /// Generates Rust code for a statement.
    fn generate_statement(stmt: &Statement) -> (r: String)
        ensures
            r@ == spec_gen_stmt(stmt@),
        decreases stmt, 1int,
    {
        match stmt {
            Statement::FunctionDef { .. } => Self::generate_function_def(stmt),
            Statement::ClassDef { name } => {
                // A class declaration emits no code of its own; it only
                // opens a record for the class's methods.
                let mut out = String::new();
                out.append("// class ");
                out.append(name.as_str());
                proof {
                    reveal_strlit("// class ");
                    assert(Seq::<char>::empty() + "// class "@ + name@ =~= "// class "@ + name@);
                }
                out
            },
            Statement::MethodDef { .. } => Self::generate_method_def(stmt),
            Statement::Assignment { name, value } => {
                let mut out = String::new();
                out.append("let ");
                out.append(name.as_str());
                out.append(" = ");
                let vt = Self::generate_expression_with_context(value, None, false);
                out.append(vt.as_str());
                out.push(';');
                proof {
                    reveal_strlit("let ");
                    reveal_strlit(" = ");
                    assert(out@ =~= spec_gen_stmt(stmt@));
                }
                out
            },
            Statement::If { .. } => Self::generate_if_statement(stmt),
            Statement::While { .. } => Self::generate_while_statement(stmt),
            Statement::Expression(expr) => {
                let is_print = match expr {
                    Expr::FunctionCall { name, .. } => crate::text::str_eq(name.as_str(), "print"),
                    _ => false,
                };
                if is_print {
                    match expr {
                        Expr::FunctionCall { args, .. } => {
                            let r = Self::generate_print_call(args);
                            proof {
                                reveal_strlit("print");
                                assert(r@ == spec_gen_stmt(stmt@));
                            }
                            r
                        },
                        _ => {
                            proof {
                                assert(false);
                            }
                            String::new()
                        },
                    }
                } else {
                    let mut out = String::new();
                    let t = Self::generate_expression_with_context(expr, None, false);
                    out.append(t.as_str());
                    out.push(';');
                    proof {
                        reveal_strlit("print");
                        assert(out@ =~= spec_gen_stmt(stmt@));
                    }
                    out
                }
            },
        }
    }

    /// A method definition emits nothing where a plain statement is
    /// expected: its code is produced inside its class's impl block.
    fn generate_method_def(stmt: &Statement) -> (r: String)
        ensures
            r@ == Seq::<char>::empty(),
    {
        let _ = stmt;
        String::new()
    }

    /// Whether an assignment target has the `self.<field>` form.
    fn is_self_dot(name: &str) -> (r: bool)
        ensures
            r == starts_self_dot(name@),
    {
        let n = name.unicode_len();
        if n < 5 {
            proof {
                reveal_strlit("self.");
            }
            return false;
        }
        let r = name.get_char(0) == 's' && name.get_char(1) == 'e' && name.get_char(2) == 'l'
            && name.get_char(3) == 'f' && name.get_char(4) == '.';
        proof {
            reveal_strlit("self.");
            assert(name@.subrange(0, 5)[0] == name@[0]);
            assert(name@.subrange(0, 5)[1] == name@[1]);
            assert(name@.subrange(0, 5)[2] == name@[2]);
            assert(name@.subrange(0, 5)[3] == name@[3]);
            assert(name@.subrange(0, 5)[4] == name@[4]);
            if r {
                assert(name@.subrange(0, 5) =~= "self."@);
            }
        }
        r
    }

    /// The `<field>` part of a `self.<field>` assignment target.
    fn self_dot_suffix(name: &str) -> (r: String)
        requires
            starts_self_dot(name@),
        ensures
            r@ == name@.skip(5),
    {
        let n = name.unicode_len();
        let suffix = name.substring_char(5, n);
        let r = suffix.to_owned();
        proof {
            assert(name@.subrange(5, name@.len() as int) =~= name@.skip(5));
        }
        r
    }

    /// Whether a name stands in the given list of names.
    fn is_listed(names: &Vec<String>, name: &str) -> (r: bool)
        ensures
            r == crate::parser::ast::params_view(names@).contains(name@),
    {
        let ghost nv = crate::parser::ast::params_view(names@);
        let mut i: usize = 0;
        while i < names.len()
            invariant
                i <= names@.len(),
                nv == crate::parser::ast::params_view(names@),
                nv.len() == names@.len(),
                forall|k: int| 0 <= k < i ==> nv[k] != name@,
            decreases names@.len() - i,
        {
            if crate::text::str_eq(names[i].as_str(), name) {
                proof {
                    assert(nv[i as int] == name@);
                }
                return true;
            }
            i += 1;
        }
        proof {
            assert(!nv.contains(name@)) by {
                assert(forall|k: int| 0 <= k < nv.len() ==> nv[k] != name@);
            }
        }
        false
    }

    /// Adds a field name to the collection unless it is already there.
    fn add_field(fields: &mut Vec<String>, f: String)
        ensures
            crate::parser::ast::params_view(final(fields)@) == spec_add_field(
                crate::parser::ast::params_view(old(fields)@),
                f@,
            ),
    {
        let present = Self::is_listed(fields, f.as_str());
        if !present {
            let ghost before = fields@;
            fields.push(f);
            proof {
                assert(crate::parser::ast::params_view(fields@) =~= crate::parser::ast::params_view(
                    before,
                ).push(f@));
            }
        }
    }

    /// Collects the record fields that a method body implies, in
    /// first-seen order: `self.<field>` assignment targets and bare
    /// `self.<field>` reads, recursively through if/while bodies.
    fn collect_fields(body: &Vec<Statement>, fields: &mut Vec<String>)
        ensures
            crate::parser::ast::params_view(final(fields)@) == spec_cf_stmts(
                stmts_view(body@),
                crate::parser::ast::params_view(old(fields)@),
                body@.len() as int,
            ),
        decreases body@, 3int,
    {
        let ghost bv = stmts_view(body@);
        proof {
            lemma_stmts_view(body@);
        }
        let mut i: usize = 0;
        while i < body.len()
            invariant
                i <= body@.len(),
                bv == stmts_view(body@),
                bv.len() == body@.len(),
                crate::parser::ast::params_view(fields@) == spec_cf_stmts(
                    bv,
                    crate::parser::ast::params_view(old(fields)@),
                    i as int,
                ),
            decreases body@.len() - i,
        {
            Self::collect_fields_stmt(&body[i], fields);
            proof {
                lemma_stmts_view(body@);
                assert(bv[i as int] == body@[i as int]@);
            }
            i += 1;
        }
    }

    /// Collects the record fields that one statement implies.
    fn collect_fields_stmt(stmt: &Statement, fields: &mut Vec<String>)
        ensures
            crate::parser::ast::params_view(final(fields)@) == spec_cf_stmt(
                stmt@,
                crate::parser::ast::params_view(old(fields)@),
            ),
        decreases stmt, 4int,
    {
        let ghost pv0 = crate::parser::ast::params_view(old(fields)@);
        match stmt {
            Statement::Assignment { name, value: _ } => {
                if Self::is_self_dot(name.as_str()) {
                    let f = Self::self_dot_suffix(name.as_str());
                    Self::add_field(fields, f);
                }
                proof {
                    assert(crate::parser::ast::params_view(fields@) == spec_cf_stmt(stmt@, pv0));
                }
            },
            Statement::If { condition: _, then_branch, elif_branches, else_branch } => {
                Self::collect_fields(then_branch, fields);
                proof {
                    lemma_stmts_view(then_branch@);
                }
                Self::collect_fields_elifs(elif_branches, fields);
                match else_branch {
                    Some(else_body) => {
                        Self::collect_fields(else_body, fields);
                        proof {
                            lemma_stmts_view(else_body@);
                            lemma_elifs_view(elif_branches@);
                        }
                    },
                    None => {
                        proof {
                            lemma_elifs_view(elif_branches@);
                        }
                    },
                }
                proof {
                    assert(crate::parser::ast::params_view(fields@) == spec_cf_stmt(stmt@, pv0));
                }
            },
            Statement::While { condition: _, body } => {
                Self::collect_fields(body, fields);
                proof {
                    lemma_stmts_view(body@);
                    assert(crate::parser::ast::params_view(fields@) == spec_cf_stmt(stmt@, pv0));
                }
            },
            Statement::Expression(e) => {
                match e {
                    Expr::FieldAccess { object, field } => {
                        let is_self = match &**object {
                            Expr::Identifier(n) => crate::text::str_eq(n.as_str(), "self"),
                            _ => false,
                        };
                        if is_self {
                            Self::add_field(fields, field.clone());
                        }
                        proof {
                            reveal_strlit("self");
                            match &**object {
                                Expr::Identifier(n) => {
                                    assert((**object)@ == SpecExpr::Ident(n@));
                                },
                                _ => {},
                            }
                            assert(crate::parser::ast::params_view(fields@) == spec_cf_stmt(
                                stmt@,
                                pv0,
                            ));
                        }
                    },
                    _ => {
                        proof {
                            assert(crate::parser::ast::params_view(fields@) == spec_cf_stmt(
                                stmt@,
                                pv0,
                            ));
                        }
                    },
                }
            },
            _ => {
                proof {
                    assert(crate::parser::ast::params_view(fields@) == spec_cf_stmt(stmt@, pv0));
                }
            },
        }
    }

    /// Collects the record fields that the elif branches imply.
    fn collect_fields_elifs(elifs: &Vec<(Expr, Vec<Statement>)>, fields: &mut Vec<String>)
        ensures
            crate::parser::ast::params_view(final(fields)@) == spec_cf_elifs(
                elifs_view(elifs@),
                crate::parser::ast::params_view(old(fields)@),
                elifs@.len() as int,
            ),
        decreases elifs@, 3int,
    {
        let ghost ev = elifs_view(elifs@);
        proof {
            lemma_elifs_view(elifs@);
        }
        let mut i: usize = 0;
        while i < elifs.len()
            invariant
                i <= elifs@.len(),
                ev == elifs_view(elifs@),
                ev.len() == elifs@.len(),
                crate::parser::ast::params_view(fields@) == spec_cf_elifs(
                    ev,
                    crate::parser::ast::params_view(old(fields)@),
                    i as int,
                ),
            decreases elifs@.len() - i,
        {
            Self::collect_fields_pair(&elifs[i], fields);
            proof {
                lemma_elifs_view(elifs@);
                lemma_stmts_view(elifs@[i as int].1@);
                assert(ev[i as int] == (elifs@[i as int].0@, stmts_view(elifs@[i as int].1@)));
            }
            i += 1;
        }
    }

    /// Collects the record fields that one elif branch implies.
    fn collect_fields_pair(pair: &(Expr, Vec<Statement>), fields: &mut Vec<String>)
        ensures
            crate::parser::ast::params_view(final(fields)@) == spec_cf_stmts(
                stmts_view(pair.1@),
                crate::parser::ast::params_view(old(fields)@),
                pair.1@.len() as int,
            ),
        decreases pair, 0int,
    {
        Self::collect_fields(&pair.1, fields);
        proof {
            lemma_stmts_view(pair.1@);
        }
    }

    /// Generates the code of one method inside an impl block: `new`
    /// becomes a constructor returning the record, the rest become
    /// instance functions with an implicit receiver.
    fn generate_method_impl(stmt: &Statement) -> (r: String)
        requires
            stmt is MethodDef,
        ensures
            (match stmt@ {
                SpecStmt::MethodDef { method_name, params, body, .. } => r@ == spec_gen_method(
                    method_name,
                    params,
                    body,
                ),
                _ => false,
            }),
    {
        match stmt {
            Statement::MethodDef { class_name: _, method_name, params, body } => {
                proof {
                    lemma_stmts_view(body@);
                }
                if crate::text::str_eq(method_name.as_str(), "new") {
                    // The constructor: its self.<field> assignments become
                    // the output record's field initializers.
                    let mut out = String::new();
                    out.append("    fn ");
                    out.append(method_name.as_str());
                    out.push('(');
                    Self::push_typed_params(&mut out, params);
                    out.append(") -> Self {\n");
                    out.append("        Self {\n");

                    let ghost bv = stmts_view(body@);
                    let ghost head = out@;
                    let mut i: usize = 0;
                    while i < body.len()
                        invariant
                            i <= body@.len(),
                            bv == stmts_view(body@),
                            bv.len() == body@.len(),
                            out@ == head + spec_gen_ctor_fields(bv, i as int),
                        decreases body@.len() - i,
                    {
                        match &body[i] {
                            Statement::Assignment { name, value } => {
                                if Self::is_self_dot(name.as_str()) {
                                    out.append("            ");
                                    let f = Self::self_dot_suffix(name.as_str());
                                    out.append(f.as_str());
                                    out.append(": ");
                                    let vt = Self::generate_expression_with_context(
                                        value,
                                        None,
                                        false,
                                    );
                                    out.append(vt.as_str());
                                    out.append(",\n");
                                }
                            },
                            _ => {},
                        }
                        proof {
                            reveal_strlit("            ");
                            reveal_strlit(": ");
                            reveal_strlit(",\n");
                            lemma_stmts_view(body@);
                            assert(bv[i as int] == body@[i as int]@);
                            assert(out@ =~= head + spec_gen_ctor_fields(bv, i + 1));
                        }
                        i += 1;
                    }

                    out.append("        }\n");
                    out.append("    }\n\n");
                    proof {
                        reveal_strlit("new");
                        reveal_strlit("    fn ");
                        reveal_strlit(") -> Self {\n");
                        reveal_strlit("        Self {\n");
                        reveal_strlit("        }\n");
                        reveal_strlit("    }\n\n");
                        assert(out@ =~= spec_gen_method(
                            method_name@,
                            crate::parser::ast::params_view(params@),
                            stmts_view(body@),
                        ));
                    }
                    out
                } else {
                    // An instance method with an implicit receiver.
                    let mut out = String::new();
                    out.append("    fn ");
                    out.append(method_name.as_str());
                    out.push('(');
                    if params.len() == 0 {
                        out.append("&self");
                    } else {
                        out.append("&self, ");
                        Self::push_typed_params(&mut out, params);
                    }
                    out.append(") -> i64 {\n");

                    let ghost bv = stmts_view(body@);
                    let ghost pv = crate::parser::ast::params_view(params@);
                    let ghost head = out@;
                    let mut i: usize = 0;
                    while i < body.len()
                        invariant
                            i <= body@.len(),
                            bv == stmts_view(body@),
                            bv.len() == body@.len(),
                            pv == crate::parser::ast::params_view(params@),
                            out@ == head + spec_gen_method_body(bv, i as int, pv),
                        decreases body@.len() - i,
                    {
                        let skip = match &body[i] {
                            Statement::Assignment { name, .. } => Self::is_self_dot(name.as_str()),
                            _ => false,
                        };
                        if !skip {
                            out.append("        ");
                            let is_last = i == body.len() - 1;
                            let line = match &body[i] {
                                Statement::Expression(expr) if is_last => Self::generate_expression_with_self(
                                    expr,
                                    params,
                                ),
                                other => Self::generate_statement_with_self(other, params),
                            };
                            out.append(line.as_str());
                            out.push('\n');
                        }
                        proof {
                            reveal_strlit("        ");
                            lemma_stmts_view(body@);
                            assert(bv[i as int] == body@[i as int]@);
                            assert(out@ =~= head + spec_gen_method_body(bv, i + 1, pv));
                        }
                        i += 1;
                    }

                    out.append("    }\n\n");
                    proof {
                        reveal_strlit("new");
                        reveal_strlit("    fn ");
                        reveal_strlit("&self");
                        reveal_strlit("&self, ");
                        reveal_strlit(") -> i64 {\n");
                        reveal_strlit("    }\n\n");
                        assert(out@ =~= spec_gen_method(
                            method_name@,
                            crate::parser::ast::params_view(params@),
                            stmts_view(body@),
                        ));
                    }
                    out
                }
            },
            _ => {
                proof {
                    assert(false);
                }
                String::new()
            },
        }
    }

    /// Finds the entry of a class in the collection by name.
    fn class_index(classes: &Vec<(String, Vec<Statement>)>, name: &str) -> (r: Option<usize>)
        ensures
            (match r {
                Some(i) => {
                    &&& spec_class_index(classes_vec_view(classes@), name@) == i as int
                    &&& i < classes@.len()
                    &&& classes_vec_view(classes@)[i as int].0 == name@
                },
                None => spec_class_index(classes_vec_view(classes@), name@) == -1,
            }),
    {
        let ghost cv = classes_vec_view(classes@);
        proof {
            lemma_classes_vec_view(classes@);
            assert(cv.skip(0) =~= cv);
        }
        let mut i: usize = 0;
        while i < classes.len()
            invariant
                i <= classes@.len(),
                cv == classes_vec_view(classes@),
                cv.len() == classes@.len(),
                spec_class_index(cv, name@) == ({
                    let r = spec_class_index(cv.skip(i as int), name@);
                    if r < 0 {
                        -1int
                    } else {
                        r + i
                    }
                }),
            decreases classes@.len() - i,
        {
            proof {
                lemma_classes_vec_view(classes@);
                assert(cv.skip(i as int)[0] == cv[i as int]);
                assert(cv.skip(i as int).skip(1) =~= cv.skip(i + 1));
            }
            if crate::text::str_eq(classes[i].0.as_str(), name) {
                proof {
                    assert(cv[i as int].0 == name@);
                    assert(spec_class_index(cv.skip(i as int), name@) == 0);
                }
                return Some(i);
            }
            i += 1;
        }
        proof {
            assert(cv.skip(i as int) =~= Seq::<(Seq<char>, Seq<SpecStmt>)>::empty());
            assert(spec_class_index(cv.skip(i as int), name@) == -1);
        }
        None
    }

    /// Generates the record type and impl block of one class.
    fn generate_class(name: &String, methods: &Vec<Statement>) -> (r: String)
        ensures
            r@ == spec_gen_class(name@, stmts_view(methods@)),
    {
        let ghost mv = stmts_view(methods@);
        proof {
            lemma_stmts_view(methods@);
        }

        // The record's fields: every field that any method's body touches.
        let mut fields: Vec<String> = Vec::new();
        let mut m: usize = 0;
        while m < methods.len()
            invariant
                m <= methods@.len(),
                mv == stmts_view(methods@),
                mv.len() == methods@.len(),
                crate::parser::ast::params_view(fields@) == spec_cf_methods(
                    mv,
                    Seq::empty(),
                    m as int,
                ),
            decreases methods@.len() - m,
        {
            match &methods[m] {
                Statement::MethodDef { body, .. } => {
                    Self::collect_fields(body, &mut fields);
                    proof {
                        lemma_stmts_view(body@);
                    }
                },
                _ => {},
            }
            proof {
                lemma_stmts_view(methods@);
                assert(mv[m as int] == methods@[m as int]@);
            }
            m += 1;
        }

        let mut out = String::new();
        out.append("#[derive(Clone)]\nstruct ");
        out.append(name.as_str());
        out.append(" {\n");

        let ghost fv = crate::parser::ast::params_view(fields@);
        let ghost head = out@;
        let mut i: usize = 0;
        while i < fields.len()
            invariant
                i <= fields@.len(),
                fv == crate::parser::ast::params_view(fields@),
                fv.len() == fields@.len(),
                out@ == head + spec_gen_fields(fv, i as int),
            decreases fields@.len() - i,
        {
            out.append("    ");
            out.append(fields[i].as_str());
            out.append(": i64,\n");
            proof {
                reveal_strlit("    ");
                reveal_strlit(": i64,\n");
                assert(fv[i as int] == fields@[i as int]@);
                assert(out@ =~= head + spec_gen_fields(fv, i + 1));
            }
            i += 1;
        }

        out.append("}\n\n");
        out.append("impl ");
        out.append(name.as_str());
        out.append(" {\n");

        let ghost head2 = out@;
        let mut j: usize = 0;
        while j < methods.len()
            invariant
                j <= methods@.len(),
                mv == stmts_view(methods@),
                mv.len() == methods@.len(),
                out@ == head2 + spec_gen_methods(mv, j as int),
            decreases methods@.len() - j,
        {
            let is_method = matches!(&methods[j], Statement::MethodDef { .. });
            if is_method {
                let t = Self::generate_method_impl(&methods[j]);
                out.append(t.as_str());
            }
            proof {
                lemma_stmts_view(methods@);
                assert(mv[j as int] == methods@[j as int]@);
                if !is_method {
                    assert(out@ + Seq::<char>::empty() =~= out@);
                }
                assert(out@ =~= head2 + spec_gen_methods(mv, j + 1));
            }
            j += 1;
        }

        out.append("}\n\n");
        proof {
            reveal_strlit("#[derive(Clone)]\nstruct ");
            reveal_strlit(" {\n");
            reveal_strlit("}\n\n");
            reveal_strlit("impl ");
            assert(out@ =~= spec_gen_class(name@, stmts_view(methods@)));
        }
        out
    }

    /// Generates a full Rust program from a Grit Program AST.
    pub fn generate_program(program: &Program) -> (r: String)
        ensures
            r@ == spec_gen_program(program@),
    {
        let ghost pv = program@;
        proof {
            lemma_stmts_view(program.statements@);
        }

        // Special case: a lone bare expression (other than a call) becomes
        // an entry point that binds and prints the value.
        if program.statements.len() == 1 {
            let special = match &program.statements[0] {
                Statement::Expression(expr) => !matches!(expr, Expr::FunctionCall { .. }),
                _ => false,
            };
            if special {
                match &program.statements[0] {
                    Statement::Expression(expr) => {
                        let mut out = String::new();
                        out.append("fn main() {\n    let result = ");
                        let t = Self::generate_expression_with_context(expr, None, false);
                        out.append(t.as_str());
                        out.append(";\n    println!(\"{}\", result);\n}\n");
                        proof {
                            reveal_strlit("fn main() {\n    let result = ");
                            reveal_strlit(";\n    println!(\"{}\", result);\n}\n");
                            assert(pv[0] == program.statements@[0]@);
                            assert(out@ =~= spec_gen_program(pv));
                        }
                        return out;
                    },
                    _ => {},
                }
            }
        }
        proof {
            if pv.len() == 1 && pv[0] is Expression {
                assert(pv[0] == program.statements@[0]@);
            }
        }

        // Group the class and method statements by class name, keeping
        // first-seen order.
        let mut classes: Vec<(String, Vec<Statement>)> = Vec::new();
        let mut i: usize = 0;
        while i < program.statements.len()
            invariant
                i <= program.statements@.len(),
                pv == stmts_view(program.statements@),
                pv.len() == program.statements@.len(),
                classes_vec_view(classes@) == spec_classes(pv, i as int),
            decreases program.statements@.len() - i,
        {
            let ghost cv = classes_vec_view(classes@);
            proof {
                lemma_classes_vec_view(classes@);
                lemma_stmts_view(program.statements@);
                assert(pv[i as int] == program.statements@[i as int]@);
            }
            match &program.statements[i] {
                Statement::ClassDef { name } => {
                    let idx = Self::class_index(&classes, name.as_str());
                    match idx {
                        Some(_) => {},
                        None => {
                            let ghost before = classes@;
                            classes.push((name.clone(), Vec::new()));
                            proof {
                                lemma_classes_vec_view(before);
                                lemma_classes_vec_view(classes@);
                                assert(stmts_view(Seq::<Statement>::empty())
                                    =~= Seq::<SpecStmt>::empty());
                                assert(classes_vec_view(classes@) =~= cv.push(
                                    (name@, Seq::<SpecStmt>::empty()),
                                ));
                            }
                        },
                    }
                },
                Statement::MethodDef { class_name, .. } => {
                    let idx = Self::class_index(&classes, class_name.as_str());
                    match idx {
                        Some(j) => {
                            let ghost prevec = classes@;
                            let (cname, mut cbody) = classes.remove(j);
                            let ghost mid = classes@;
                            let ghost cbody0 = cbody@;
                            cbody.push(program.statements[i].clone());
                            let ghost entry_name = cname@;
                            let ghost entry_body = cbody@;
                            classes.insert(j, (cname, cbody));
                            proof {
                                prevec.remove_ensures(j as int);
                                mid.insert_ensures(j as int, classes@[j as int]);
                                assert(classes@ == mid.insert(j as int, classes@[j as int]));
                                lemma_classes_vec_view(prevec);
                                lemma_classes_vec_view(classes@);
                                lemma_stmts_view(cbody0);
                                lemma_stmts_view(entry_body);
                                assert(stmts_view(entry_body) =~= stmts_view(cbody0).push(
                                    pv[i as int],
                                ));
                                assert(cbody0 == prevec[j as int].1@);
                                assert(entry_name == prevec[j as int].0@);
                                let target = cv.update(
                                    j as int,
                                    (cv[j as int].0, cv[j as int].1.push(pv[i as int])),
                                );
                                assert forall|x: int| 0 <= x < classes@.len() implies
                                    classes_vec_view(classes@)[x] == target[x] by {
                                    if x < j {
                                        assert(classes@[x] == mid[x]);
                                        assert(mid[x] == prevec[x]);
                                    } else if x == j {
                                        assert(classes@[j as int].0@ == entry_name);
                                        assert(classes@[j as int].1@ == entry_body);
                                    } else {
                                        assert(classes@[x] == mid[x - 1]);
                                        assert(mid[x - 1] == prevec[x]);
                                    }
                                }
                                assert(classes_vec_view(classes@) =~= target);
                            }
                        },
                        None => {
                            let mut newbody: Vec<Statement> = Vec::new();
                            newbody.push(program.statements[i].clone());
                            let ghost nb = newbody@;
                            classes.push((class_name.clone(), newbody));
                            proof {
                                lemma_classes_vec_view(classes@);
                                lemma_stmts_view(nb);
                                assert(classes@[classes@.len() - 1].1@ == nb);
                                assert(stmts_view(nb) =~= seq![pv[i as int]]);
                                assert(classes_vec_view(classes@) =~= cv.push(
                                    (class_name@, seq![pv[i as int]]),
                                ));
                            }
                        },
                    }
                },
                _ => {},
            }
            i += 1;
        }

        // Emit the record type and impl block of each class.
        let mut code = String::new();
        let ghost cv = classes_vec_view(classes@);
        proof {
            lemma_classes_vec_view(classes@);
        }
        let mut j: usize = 0;
        while j < classes.len()
            invariant
                j <= classes@.len(),
                cv == classes_vec_view(classes@),
                cv.len() == classes@.len(),
                code@ == spec_gen_classes(cv, j as int),
            decreases classes@.len() - j,
        {
            let t = Self::generate_class(&classes[j].0, &classes[j].1);
            code.append(t.as_str());
            proof {
                lemma_classes_vec_view(classes@);
                assert(cv[j as int] == (classes@[j as int].0@, stmts_view(classes@[j as int].1@)));
                assert(code@ =~= spec_gen_classes(cv, j + 1));
            }
            j += 1;
        }

        // Free functions go before the entry point; everything else goes
        // inside it.
        let mut main_body = String::new();
        let ghost fns_head = code@;
        let mut k: usize = 0;
        while k < program.statements.len()
            invariant
                k <= program.statements@.len(),
                pv == stmts_view(program.statements@),
                pv.len() == program.statements@.len(),
                code@ == fns_head + spec_gen_free_fns(pv, k as int),
                main_body@ == spec_gen_main_body(pv, k as int),
            decreases program.statements@.len() - k,
        {
            proof {
                lemma_stmts_view(program.statements@);
                assert(pv[k as int] == program.statements@[k as int]@);
            }
            match &program.statements[k] {
                Statement::FunctionDef { .. } => {
                    let t = Self::generate_statement(&program.statements[k]);
                    code.append(t.as_str());
                    code.push('\n');
                    proof {
                        assert(code@ =~= fns_head + spec_gen_free_fns(pv, k + 1));
                        assert(main_body@ =~= spec_gen_main_body(pv, k + 1));
                    }
                },
                Statement::ClassDef { .. } => {
                    proof {
                        assert(code@ + Seq::<char>::empty() =~= code@);
                        assert(main_body@ + Seq::<char>::empty() =~= main_body@);
                    }
                },
                Statement::MethodDef { .. } => {
                    proof {
                        assert(code@ + Seq::<char>::empty() =~= code@);
                        assert(main_body@ + Seq::<char>::empty() =~= main_body@);
                    }
                },
                other => {
                    main_body.append("    ");
                    let t = Self::generate_statement(other);
                    main_body.append(t.as_str());
                    main_body.push('\n');
                    proof {
                        reveal_strlit("    ");
                        assert(main_body@ =~= spec_gen_main_body(pv, k + 1));
                        assert(code@ =~= fns_head + spec_gen_free_fns(pv, k + 1));
                    }
                },
            }
            k += 1;
        }

        code.append("fn main() {\n");
        code.append(main_body.as_str());
        code.append("}\n");
        proof {
            reveal_strlit("fn main() {\n");
            reveal_strlit("}\n");
            assert(code@ =~= spec_gen_program(pv));
        }
        code
    }

    /// Generates a statement inside a method body, with bare
    /// non-parameter identifiers rewritten to receiver-field reads.
    fn generate_statement_with_self(stmt: &Statement, params: &Vec<String>) -> (r: String)
        ensures
            r@ == spec_gen_stmt_self(stmt@, crate::parser::ast::params_view(params@)),
    {
        match stmt {
            Statement::Expression(expr) => {
                let mut out = String::new();
                let t = Self::generate_expression_with_self(expr, params);
                out.append(t.as_str());
                out.push(';');
                proof {
                    let pv = crate::parser::ast::params_view(params@);
                    assert(Seq::<char>::empty() + spec_gen_expr_self(expr@, pv) + seq![';']
                        =~= spec_gen_expr_self(expr@, pv) + seq![';']);
                }
                out
            },
            _ => Self::generate_statement(stmt),
        }
    }

    /// Generates an expression inside a method body: bare identifiers
    /// that are neither `self` nor a parameter become receiver-field
    /// reads.
    fn generate_expression_with_self(expr: &Expr, params: &Vec<String>) -> (r: String)
        ensures
            r@ == spec_gen_expr_self(expr@, crate::parser::ast::params_view(params@)),
        decreases expr,
    {
        match expr {
            Expr::Identifier(name) => {
                if crate::text::str_eq(name.as_str(), "self") || Self::is_listed(
                    params,
                    name.as_str(),
                ) {
                    let r = Self::generate_expression_with_context(expr, None, false);
                    proof {
                        reveal_strlit("self");
                    }
                    r
                } else {
                    let mut out = String::new();
                    out.append("self.");
                    out.append(name.as_str());
                    proof {
                        reveal_strlit("self");
                        reveal_strlit("self.");
                        assert(Seq::<char>::empty() + "self."@ + name@ =~= "self."@ + name@);
                    }
                    out
                }
            },
            Expr::BinaryOp { left, op, right } => {
                let mut out = String::new();
                let lt = Self::generate_expression_with_self(left, params);
                out.append(lt.as_str());
                out.push(' ');
                out.append(op.symbol());
                out.push(' ');
                let rt = Self::generate_expression_with_self(right, params);
                out.append(rt.as_str());
                proof {
                    assert(out@ =~= spec_gen_expr_self(
                        expr@,
                        crate::parser::ast::params_view(params@),
                    ));
                }
                out
            },
            Expr::FieldAccess { object, field } => {
                let mut out = String::new();
                let ot = Self::generate_expression_with_self(object, params);
                out.append(ot.as_str());
                out.push('.');
                out.append(field.as_str());
                proof {
                    assert(out@ =~= spec_gen_expr_self(
                        expr@,
                        crate::parser::ast::params_view(params@),
                    ));
                }
                out
            },
            _ => {
                let r = Self::generate_expression_with_context(expr, None, false);
                proof {
                    assert(r@ == spec_gen_expr_self(
                        expr@,
                        crate::parser::ast::params_view(params@),
                    ));
                }
                r
            },
        }
    }
}

/// Law: at the top level, where no parent operator surrounds it, an
/// emitted binary expression is never parenthesized: the emitted text is
/// exactly the left operand, the operator symbol and the right operand.
pub proof fn lemma_top_level_binary_unparenthesized(
    left: SpecExpr,
    op: BinaryOperator,
    right: SpecExpr,
)
    ensures
        spec_gen_expr(
            SpecExpr::Binary { left: Box::new(left), op, right: Box::new(right) },
            None,
            false,
        ) == spec_gen_expr(left, Some(spec_precedence(op)), false) + seq![' '] + spec_op_symbol(op)
            + seq![' '] + spec_gen_expr(right, Some(spec_precedence(op)), true),
{
}

/// Law: a binary left operand of the same precedence as its parent is
/// emitted without parentheses, so a left-folded chain such as a
/// subtraction chain prints flat, and re-parsing the flat text folds it
/// left again.
pub proof fn lemma_equal_precedence_left_child_unparenthesized(
    ll: SpecExpr,
    lop: BinaryOperator,
    lr: SpecExpr,
    op: BinaryOperator,
)
    requires
        spec_precedence(lop) == spec_precedence(op),
    ensures
        spec_gen_expr(
            SpecExpr::Binary { left: Box::new(ll), op: lop, right: Box::new(lr) },
            Some(spec_precedence(op)),
            false,
        ) == spec_gen_expr(ll, Some(spec_precedence(lop)), false) + seq![' '] + spec_op_symbol(lop)
            + seq![' '] + spec_gen_expr(lr, Some(spec_precedence(lop)), true),
{
}

/// Law: a binary right operand of the same precedence as its parent is
/// parenthesized, so right-nested structure stays distinct from a
/// left-folded chain of the same operators.
pub proof fn lemma_equal_precedence_right_child_parenthesized(
    rl: SpecExpr,
    rop: BinaryOperator,
    rr: SpecExpr,
    op: BinaryOperator,
)
    requires
        spec_precedence(rop) == spec_precedence(op),
    ensures
        spec_gen_expr(
            SpecExpr::Binary { left: Box::new(rl), op: rop, right: Box::new(rr) },
            Some(spec_precedence(op)),
            true,
        ) == seq!['('] + (spec_gen_expr(rl, Some(spec_precedence(rop)), false) + seq![' ']
            + spec_op_symbol(rop) + seq![' '] + spec_gen_expr(rr, Some(spec_precedence(rop)), true))
            + seq![')'],
{
}

/// Law: a strictly tighter-binding subexpression is never parenthesized,
/// wherever it stands: parentheses are emitted only where precedence or
/// position demands them.
pub proof fn lemma_tighter_child_unparenthesized(
    l: SpecExpr,
    cop: BinaryOperator,
    rr: SpecExpr,
    parent: Option<u8>,
    is_right: bool,
)
    requires
        (match parent {
            Some(pp) => spec_precedence(cop) > pp,
            None => true,
        }),
    ensures
        spec_gen_expr(
            SpecExpr::Binary { left: Box::new(l), op: cop, right: Box::new(rr) },
            parent,
            is_right,
        ) == spec_gen_expr(l, Some(spec_precedence(cop)), false) + seq![' '] + spec_op_symbol(cop)
            + seq![' '] + spec_gen_expr(rr, Some(spec_precedence(cop)), true),
{
}

/// Re-escaping a string extends character by character.
proof fn lemma_escape_quotes_snoc(s: Seq<char>, i: int)
    requires
        0 <= i < s.len(),
    ensures
        spec_escape_quotes(s.subrange(0, i + 1)) == spec_escape_quotes(s.subrange(0, i)) + (if s[i]
            == '"' {
            seq!['\\', '"']
        } else {
            seq![s[i]]
        }),
    decreases i,
{
    let a = s.subrange(0, i + 1);
    let b = s.subrange(0, i);
    if i == 0 {
        assert(a =~= seq![s[0]]);
        assert(b =~= Seq::<char>::empty());
        assert(a.skip(1) =~= Seq::<char>::empty());
        if s[0] == '"' {
            assert(spec_escape_quotes(a) =~= seq!['\\', '"']);
            assert(spec_escape_quotes(b) + seq!['\\', '"'] =~= seq!['\\', '"']);
        } else {
            assert(spec_escape_quotes(a) =~= seq![s[0]]);
            assert(spec_escape_quotes(b) + seq![s[0]] =~= seq![s[0]]);
        }
    } else {
        lemma_escape_quotes_snoc(s.skip(1), i - 1);
        assert(a.skip(1) =~= s.skip(1).subrange(0, i));
        assert(b.skip(1) =~= s.skip(1).subrange(0, i - 1));
        assert(s.skip(1)[i - 1] == s[i]);
        assert(a[0] == s[0]);
        assert(b[0] == s[0]);
        if s[0] == '"' {
            assert(spec_escape_quotes(a) == seq!['\\', '"'] + spec_escape_quotes(a.skip(1)));
            assert(spec_escape_quotes(b) == seq!['\\', '"'] + spec_escape_quotes(b.skip(1)));
            assert(seq!['\\', '"'] + (spec_escape_quotes(b.skip(1)) + (if s[i] == '"' {
                seq!['\\', '"']
            } else {
                seq![s[i]]
            })) =~= (seq!['\\', '"'] + spec_escape_quotes(b.skip(1))) + (if s[i] == '"' {
                seq!['\\', '"']
            } else {
                seq![s[i]]
            }));
        } else {
            assert(spec_escape_quotes(a) == seq![a[0]] + spec_escape_quotes(a.skip(1)));
            assert(spec_escape_quotes(b) == seq![b[0]] + spec_escape_quotes(b.skip(1)));
            assert(seq![s[0]] + (spec_escape_quotes(b.skip(1)) + (if s[i] == '"' {
                seq!['\\', '"']
            } else {
                seq![s[i]]
            })) =~= (seq![s[0]] + spec_escape_quotes(b.skip(1))) + (if s[i] == '"' {
                seq!['\\', '"']
            } else {
                seq![s[i]]
            }));
        }
    }
}

} // verus!
