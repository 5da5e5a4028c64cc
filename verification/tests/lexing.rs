use flc::lexer::lex;
use flc::token::{Span, Token, TokenSpan};

fn ts(token: Token, start: usize, end: usize) -> TokenSpan {
    TokenSpan { token, span: Span { start, end } }
}

fn kinds(src: &str) -> Vec<Token> {
    lex(src).0.into_iter().map(|t| t.token).collect()
}

#[test]
fn spans_of_a_simple_statement() {
    let (toks, end) = lex("let x = 42;");
    assert_eq!(
        toks,
        vec![
            ts(Token::Let, 0, 3),
            ts(Token::Identifier, 4, 5),
            ts(Token::Equal, 6, 7),
            ts(Token::Number, 8, 10),
            ts(Token::Semicolon, 10, 11),
        ]
    );
    assert_eq!(end, Span { start: 11, end: 11 });
}

#[test]
fn keywords_need_exact_match() {
    assert_eq!(
        lex("letx fn fnx").0,
        vec![ts(Token::Identifier, 0, 4), ts(Token::Fn, 5, 7), ts(Token::Identifier, 8, 11)]
    );
}

#[test]
fn all_keywords() {
    assert_eq!(
        kinds("fn return let for in while break continue if else"),
        vec![
            Token::Fn,
            Token::Return,
            Token::Let,
            Token::For,
            Token::In,
            Token::While,
            Token::Break,
            Token::Continue,
            Token::If,
            Token::Else,
        ]
    );
}

#[test]
fn comments_are_skipped() {
    assert_eq!(
        lex("1 // c\n2 /* x */ 3").0,
        vec![ts(Token::Number, 0, 1), ts(Token::Number, 7, 8), ts(Token::Number, 17, 18)]
    );
}

#[test]
fn empty_block_comment() {
    assert_eq!(lex("/**/x").0, vec![ts(Token::Identifier, 4, 5)]);
}

#[test]
fn block_comment_star_toggle() {
    // The comment pattern `/*([^*]|*[^/])**/` does not accept `/***/`:
    // the lexer falls back to operator tokens.
    assert_eq!(
        kinds("/***/x"),
        vec![Token::Slash, Token::Star, Token::Star, Token::Star, Token::Slash, Token::Identifier]
    );
}

#[test]
fn unterminated_block_comment_is_not_skipped() {
    assert_eq!(kinds("/* a"), vec![Token::Slash, Token::Star, Token::Identifier]);
}

#[test]
fn two_char_operators_win_over_one() {
    assert_eq!(
        kinds("<= << < == = :: : != ! && & || | >> >= >"),
        vec![
            Token::LessEqual,
            Token::ShiftLeft,
            Token::Less,
            Token::DoubleEqual,
            Token::Equal,
            Token::DoubleColon,
            Token::Colon,
            Token::NotEqual,
            Token::Not,
            Token::AndAnd,
            Token::And,
            Token::OrOr,
            Token::Or,
            Token::ShiftRight,
            Token::GreaterEqual,
            Token::Greater,
        ]
    );
}

#[test]
fn single_char_tokens() {
    assert_eq!(
        kinds("+-*/%^~,;.(){}"),
        vec![
            Token::Plus,
            Token::Minus,
            Token::Star,
            Token::Slash,
            Token::Percent,
            Token::Caret,
            Token::Tilde,
            Token::Comma,
            Token::Semicolon,
            Token::Dot,
            Token::LeftParen,
            Token::RightParen,
            Token::LeftBrace,
            Token::RightBrace,
        ]
    );
}

#[test]
fn string_literal_with_escape() {
    let (toks, _) = lex("\"hi\\\"s\" x");
    assert_eq!(toks, vec![ts(Token::Str, 0, 7), ts(Token::Identifier, 8, 9)]);
}

#[test]
fn unterminated_string_stops_lexing() {
    let (toks, end) = lex("\"abc");
    assert!(toks.is_empty());
    assert_eq!(end, Span { start: 0, end: 1 });
}

#[test]
fn unmatched_character_conflates_with_eof() {
    let (toks, end) = lex("1 $ 2");
    assert_eq!(toks, vec![ts(Token::Number, 0, 1)]);
    assert_eq!(end, Span { start: 2, end: 3 });
}

#[test]
fn lexing_is_deterministic() {
    let src = "fn f(): int { let a = 1 + 2; /* c */ return a; }";
    assert_eq!(lex(src), lex(src));
}
