use grit::codegen::CodeGenerator;
use grit::lexer::{TokenType, Tokenizer};
use grit::parser::{BinaryOperator, Expr, ParseError, Parser, Program, Statement};

fn parse_program(input: &str) -> Program {
    let mut tokenizer = Tokenizer::new(input);
    let tokens = tokenizer.tokenize().unwrap();
    let mut parser = Parser::new(tokens);
    parser.parse().unwrap()
}

fn single_expression(program: &Program) -> &Expr {
    assert_eq!(program.statements.len(), 1);
    match &program.statements[0] {
        Statement::Expression(e) => e,
        _ => panic!("expected a bare expression statement"),
    }
}

#[test]
fn test_next_token_stays_eof_after_input_is_exhausted() {
    let mut tokenizer = Tokenizer::new("x + 1");
    assert_eq!(
        tokenizer.next_token().unwrap().token_type,
        TokenType::Identifier("x".to_string())
    );
    assert_eq!(tokenizer.next_token().unwrap().token_type, TokenType::Plus);
    assert_eq!(
        tokenizer.next_token().unwrap().token_type,
        TokenType::Integer(1)
    );
    for _ in 0..5 {
        let token = tokenizer.next_token().unwrap();
        assert_eq!(token.token_type, TokenType::Eof);
        assert_eq!(token.line, 1);
        assert_eq!(token.column, 6);
    }
}

#[test]
fn test_regenerated_expression_reparses_to_the_same_tree() {
    let inputs = [
        "1 - 2 - 3",
        "1 + 2 * 3",
        "(1 + 2) * 3",
        "a * (b + c) - d / e",
        "x == y + 1",
        "1 + 2 - 3 * 4 / 5",
        "a < b == c",
        "((1))",
    ];
    for input in inputs {
        let program = parse_program(input);
        let expr = single_expression(&program);
        let printed = CodeGenerator::generate_expression(expr);
        let reparsed_program = parse_program(&printed);
        let reparsed = single_expression(&reparsed_program);
        assert_eq!(expr, reparsed);
    }
}

#[test]
fn test_subtraction_chain_folds_left() {
    let program = parse_program("1 - 2 - 3");
    let expr = single_expression(&program);
    let expected = Expr::BinaryOp {
        left: Box::new(Expr::BinaryOp {
            left: Box::new(Expr::Integer(1)),
            op: BinaryOperator::Subtract,
            right: Box::new(Expr::Integer(2)),
        }),
        op: BinaryOperator::Subtract,
        right: Box::new(Expr::Integer(3)),
    };
    assert_eq!(*expr, expected);
}

#[test]
fn test_multiplication_binds_tighter_than_addition() {
    let program = parse_program("1 + 2 * 3");
    let expr = single_expression(&program);
    let expected = Expr::BinaryOp {
        left: Box::new(Expr::Integer(1)),
        op: BinaryOperator::Add,
        right: Box::new(Expr::BinaryOp {
            left: Box::new(Expr::Integer(2)),
            op: BinaryOperator::Multiply,
            right: Box::new(Expr::Integer(3)),
        }),
    };
    assert_eq!(*expr, expected);
}

#[test]
fn test_regenerated_group_keeps_exactly_one_parenthesis_pair() {
    let program = parse_program("(1+2)*3");
    let expr = single_expression(&program);
    let printed = CodeGenerator::generate_expression(expr);
    assert_eq!(printed, "(1 + 2) * 3");
    assert_eq!(printed.chars().filter(|c| *c == '(').count(), 1);
    assert_eq!(printed.chars().filter(|c| *c == ')').count(), 1);
}

#[test]
fn test_lone_expression_becomes_printed_result() {
    let program = parse_program("1 + 2");
    let code = CodeGenerator::generate_program(&program);
    assert_eq!(
        code,
        "fn main() {\n    let result = 1 + 2;\n    println!(\"{}\", result);\n}\n"
    );
}

#[test]
fn test_assignment_and_print_program() {
    let program = parse_program("x = 42\nprint('%d', x)");
    assert_eq!(program.statements.len(), 2);
    let code = CodeGenerator::generate_program(&program);
    assert!(code.contains("let x = 42;"));
    assert!(code.contains("println!(\"{}\", x);"));
}

#[test]
fn test_function_with_implicit_return() {
    let program = parse_program("fn add(a, b) { a + b }");
    assert_eq!(program.statements.len(), 1);
    match &program.statements[0] {
        Statement::FunctionDef { name, params, body } => {
            assert_eq!(name, "add");
            assert_eq!(params.len(), 2);
            assert_eq!(body.len(), 1);
        }
        _ => panic!("expected a function definition"),
    }
    let code = CodeGenerator::generate_program(&program);
    assert!(code.contains("fn add(a: i64, b: i64) -> i64 {\n    a + b\n}"));
}

#[test]
fn test_class_with_constructor_lowers_to_record() {
    let program = parse_program("class Pt\nfn Pt > new(x, y) { self.x = x\nself.y = y }");
    assert_eq!(program.statements.len(), 2);
    assert!(matches!(&program.statements[0], Statement::ClassDef { .. }));
    assert!(matches!(&program.statements[1], Statement::MethodDef { .. }));
    let code = CodeGenerator::generate_program(&program);
    assert!(code.contains("struct Pt"));
    assert!(code.contains("x: i64,"));
    assert!(code.contains("y: i64,"));
    assert!(code.contains("fn new(x: i64, y: i64) -> Self"));
    assert!(code.contains("Self {"));
    assert!(code.contains("x: x,"));
    assert!(code.contains("y: y,"));
}

#[test]
fn test_unterminated_group_reports_end_of_input() {
    let mut tokenizer = Tokenizer::new("(1 + 2");
    let tokens = tokenizer.tokenize().unwrap();
    let mut parser = Parser::new(tokens);
    let result = parser.parse();
    assert!(result.is_err());
    match result.unwrap_err() {
        ParseError::UnexpectedEof { expected } => assert!(expected.contains("')'")),
        other => panic!("expected an end-of-input error, got {:?}", other),
    }
}

#[test]
fn test_unterminated_argument_list_reports_end_of_input() {
    let mut tokenizer = Tokenizer::new("foo(1");
    let tokens = tokenizer.tokenize().unwrap();
    let mut parser = Parser::new(tokens);
    let result = parser.parse();
    assert!(result.is_err());
    match result.unwrap_err() {
        ParseError::UnexpectedEof { expected } => assert!(expected.contains("')'")),
        other => panic!("expected an end-of-input error, got {:?}", other),
    }
}

#[test]
fn test_method_parameters_are_not_rewritten_to_fields() {
    let program = parse_program("class C\nfn C > scale(k) { v * k }");
    let code = CodeGenerator::generate_program(&program);
    assert!(code.contains("fn scale(&self, k: i64) -> i64"));
    // The bare identifier v becomes a field read; the parameter k stays.
    assert!(code.contains("self.v * k"));
    assert!(!code.contains("self.k"));
}

#[test]
fn test_unexpected_character_is_reported_with_position() {
    let mut tokenizer = Tokenizer::new("1 + @");
    let result = tokenizer.tokenize();
    assert!(result.is_err());
    let err = result.unwrap_err();
    assert_eq!(err.character, '@');
    assert_eq!(err.line, 1);
    assert_eq!(err.column, 5);
    let message = err.message();
    assert!(message.contains("Unexpected character '@'"));
    assert!(message.contains("line 1"));
    assert!(message.contains("column 5"));
}

#[test]
fn test_integer_overflowing_literal_becomes_zero() {
    let mut tokenizer = Tokenizer::new("99999999999999999999");
    let tokens = tokenizer.tokenize().unwrap();
    assert_eq!(tokens[0].token_type, TokenType::Integer(0));
}

#[test]
fn test_float_text_is_normalized() {
    let mut tokenizer = Tokenizer::new("007.250");
    let tokens = tokenizer.tokenize().unwrap();
    assert_eq!(tokens[0].token_type, TokenType::Float("7.25".to_string()));

    let mut tokenizer = Tokenizer::new("3.000");
    let tokens = tokenizer.tokenize().unwrap();
    assert_eq!(tokens[0].token_type, TokenType::Float("3".to_string()));
}

#[test]
fn test_empty_program_generates_empty_entry_point() {
    let program = parse_program("");
    assert_eq!(program.statements.len(), 0);
    let code = CodeGenerator::generate_program(&program);
    assert_eq!(code, "fn main() {\n}\n");
}
