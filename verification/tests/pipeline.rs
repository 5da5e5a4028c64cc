use flc::ast::{BinaryOp, Expr, Function, Stmt};
use flc::error::ParserError;
use flc::parser::Parser;
use flc::token::{Span, Token};
use flc::transpiler::Transpiler;

fn parse(src: &str) -> Result<Function, ParserError> {
    let mut p = Parser::new(src);
    assert!(p.numbers_in_range());
    p.parse_function()
}

#[test]
fn fixed_statement_shape() {
    let func = parse("fn f(): int { let x = 1; return x; }").unwrap();
    let expected = Function {
        name: "f".to_string(),
        return_type: "int".to_string(),
        body: vec![
            Stmt::Let { name: "x".to_string(), value: Expr::Number(1) },
            Stmt::Return(Expr::Variable("x".to_string())),
        ],
    };
    assert_eq!(func, expected);
    let c = Transpiler::transpile_function(&func);
    assert_eq!(c, "int f() {\n    int x = 1;\n    return x;\n}\n");
}

#[test]
fn missing_semicolon_fails_precisely() {
    let err = parse("fn f(): int { let x = 1 }").unwrap_err();
    assert_eq!(
        err,
        ParserError::UnexpectedToken {
            expected: Token::Semicolon,
            found: Token::RightBrace,
            span: Span { start: 24, end: 25 },
        }
    );
}

#[test]
fn non_identifier_after_let_fails() {
    let err = parse("fn f(): int { let 5 = 1; }").unwrap_err();
    assert_eq!(
        err,
        ParserError::ExpectedIdentifier {
            found: Some(Token::Number),
            span: Span { start: 18, end: 19 },
        }
    );
}

#[test]
fn empty_body_parses() {
    let func = parse("fn f(): int { }").unwrap();
    assert_eq!(func.name, "f");
    assert_eq!(func.return_type, "int");
    assert!(func.body.is_empty());
    assert_eq!(Transpiler::transpile_function(&func), "int f() {\n}\n");
}

#[test]
fn unknown_statement_starter_fails() {
    let err = parse("fn f(): int { if }").unwrap_err();
    assert_eq!(
        err,
        ParserError::UnexpectedExprToken { found: Token::If, span: Span { start: 14, end: 16 } }
    );
}

#[test]
fn grouping_mirrors_left_fold() {
    let func = parse("fn f(): int { return 1 + 2 * 3; }").unwrap();
    let c = Transpiler::transpile_function(&func);
    assert_eq!(c, "int f() {\n    return ((1 + 2) * 3);\n}\n");
}

#[test]
fn left_fold_ast_shape() {
    let func = parse("fn f(): int { return a - b - c; }").unwrap();
    let expected = Expr::Binary {
        left: Box::new(Expr::Binary {
            left: Box::new(Expr::Variable("a".to_string())),
            op: BinaryOp::Sub,
            right: Box::new(Expr::Variable("b".to_string())),
        }),
        op: BinaryOp::Sub,
        right: Box::new(Expr::Variable("c".to_string())),
    };
    assert_eq!(func.body, vec![Stmt::Return(expected)]);
}

#[test]
fn parsing_is_deterministic() {
    let src = "fn main(): int { let a = 1 + 2; return a / 4; }";
    let first = parse(src);
    let second = parse(src);
    assert_eq!(first, second);
    assert_eq!(
        Transpiler::transpile_function(first.as_ref().unwrap()),
        Transpiler::transpile_function(second.as_ref().unwrap()),
    );
}

#[test]
fn eof_inside_body() {
    let err = parse("fn f(): int {").unwrap_err();
    assert_eq!(err, ParserError::UnexpectedEof);
}

#[test]
fn eof_where_identifier_required() {
    let err = parse("fn").unwrap_err();
    assert_eq!(
        err,
        ParserError::ExpectedIdentifier { found: None, span: Span { start: 2, end: 2 } }
    );
}

#[test]
fn wrong_token_in_signature() {
    let err = parse("fn f(: int {}").unwrap_err();
    assert_eq!(
        err,
        ParserError::UnexpectedToken {
            expected: Token::RightParen,
            found: Token::Colon,
            span: Span { start: 5, end: 6 },
        }
    );
}

#[test]
fn comments_and_whitespace_are_skipped() {
    let func = parse("fn f(): int { // comment\n  let x = 2; /* mid */ return x; }").unwrap();
    assert_eq!(func.body.len(), 2);
    assert_eq!(Transpiler::transpile_function(&func), "int f() {\n    int x = 2;\n    return x;\n}\n");
}

#[test]
fn largest_literal_parses() {
    let func = parse("fn f(): int { return 9223372036854775807; }").unwrap();
    assert_eq!(func.body, vec![Stmt::Return(Expr::Number(i64::MAX))]);
}

#[test]
fn oversized_literal_detected() {
    let p = Parser::new("fn f(): int { return 9223372036854775808; }");
    assert!(!p.numbers_in_range());
    let q = Parser::new("fn f(): int { return 9223372036854775807; }");
    assert!(q.numbers_in_range());
}

#[test]
fn percent_is_not_an_expression_operator() {
    let err = parse("fn f(): int { return 1 % 2; }").unwrap_err();
    assert_eq!(
        err,
        ParserError::UnexpectedToken {
            expected: Token::Semicolon,
            found: Token::Percent,
            span: Span { start: 23, end: 24 },
        }
    );
}

#[test]
fn trailing_tokens_are_ignored() {
    let func = parse("fn f(): int { } extra ) tokens").unwrap();
    assert!(func.body.is_empty());
}
