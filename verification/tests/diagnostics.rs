use flc::ast::{BinaryOp, Expr, Stmt};
use flc::error::{find_line_info, ParserError};
use flc::parser::Parser;
use flc::token::{Span, Token};
use flc::transpiler::Transpiler;

#[test]
fn line_info_basics() {
    assert_eq!(find_line_info("ab\ncd", 0), (1, 1, 0));
    assert_eq!(find_line_info("ab\ncd", 2), (1, 3, 0));
    assert_eq!(find_line_info("ab\ncd", 3), (2, 1, 3));
    assert_eq!(find_line_info("ab\ncd", 4), (2, 2, 3));
}

#[test]
fn line_info_fallbacks() {
    assert_eq!(find_line_info("", 0), (1, 1, 0));
    assert_eq!(find_line_info("a\n", 2), (2, 1, 2));
    assert_eq!(find_line_info("ab", 7), (2, 1, 2));
}

#[test]
fn pprint_missing_semicolon() {
    let src = "fn f(): int { let x = 1 }";
    let mut p = Parser::new(src);
    assert!(p.numbers_in_range());
    let err = p.parse_function().unwrap_err();
    let rendered = err.pprint(src, "main.fl");
    let esc = '\u{1b}';
    let expected = format!(
        "{esc}[31merror{esc}[0m: Expected Semicolon, but found RightBrace at 24..25\n  \
         {esc}[34m-->{esc}[0m main.fl:1:25\n   {esc}[34m|{esc}[0m\n{esc}[34m 1 |{esc}[0m \
         fn f(): int {{ let x = 1 }}\n   {esc}[34m| {esc}[31m                        ^{esc}[0m\n"
    );
    assert_eq!(rendered, expected);
}

#[test]
fn pprint_on_second_line() {
    let src = "fn f(): int {\nlet 5 = 1; }";
    let mut p = Parser::new(src);
    assert!(p.numbers_in_range());
    let err = p.parse_function().unwrap_err();
    assert_eq!(
        err,
        ParserError::ExpectedIdentifier {
            found: Some(Token::Number),
            span: Span { start: 18, end: 19 },
        }
    );
    let esc = '\u{1b}';
    let expected = format!(
        "{esc}[31merror{esc}[0m: Expected identifier, but found Some(Number) at 18..19\n  \
         {esc}[34m-->{esc}[0m main.fl:2:5\n   {esc}[34m|{esc}[0m\n{esc}[34m 2 |{esc}[0m \
         let 5 = 1; }}\n   {esc}[34m| {esc}[31m    ^{esc}[0m\n"
    );
    assert_eq!(err.pprint(src, "main.fl"), expected);
}

#[test]
fn pprint_unexpected_eof_has_no_position() {
    let err = ParserError::UnexpectedEof;
    let esc = '\u{1b}';
    assert_eq!(
        err.pprint("fn", "main.fl"),
        format!("{esc}[31merror{esc}[0m: Unexpected end of input\n --> main.fl:??:??")
    );
}

#[test]
fn transpile_negative_numbers() {
    assert_eq!(Transpiler::transpile_expr(&Expr::Number(-5)), "-5");
    assert_eq!(Transpiler::transpile_expr(&Expr::Number(0)), "0");
    assert_eq!(
        Transpiler::transpile_expr(&Expr::Number(i64::MIN)),
        "-9223372036854775808"
    );
}

#[test]
fn transpile_stmt_forms() {
    assert_eq!(
        Transpiler::transpile_stmt(&Stmt::Let {
            name: "x".to_string(),
            value: Expr::Number(1),
        }),
        "int x = 1;"
    );
    assert_eq!(
        Transpiler::transpile_stmt(&Stmt::Return(Expr::Variable("x".to_string()))),
        "return x;"
    );
}

#[test]
fn transpile_expr_parenthesizes_unconditionally() {
    let e = Expr::Binary {
        left: Box::new(Expr::Number(1)),
        op: BinaryOp::Add,
        right: Box::new(Expr::Binary {
            left: Box::new(Expr::Number(2)),
            op: BinaryOp::Mul,
            right: Box::new(Expr::Number(3)),
        }),
    };
    assert_eq!(Transpiler::transpile_expr(&e), "(1 + (2 * 3))");
}
