use vstd::prelude::*;

verus! {

/// A half-open range `[start, end)` of character positions in the source text.
#[derive(Debug, Clone, Copy, PartialEq, Eq, Structural)]
pub struct Span {
    pub start: usize,
    pub end: usize,
}

/// The fixed vocabulary of lexical categories. A token carries no payload;
/// its matched text is recovered from the source through its span.
///
/// Several keywords (`for`, `in`, `while`, `break`, `continue`, `if`,
/// `else`) are reserved by the lexer but not used by the grammar.
#[derive(Debug, Clone, Copy, PartialEq, Eq, Structural)]
pub enum Token {
    // Keywords
    Fn,
    Return,
    Let,
    For,
    In,
    While,
    Break,
    Continue,
    If,
    Else,
    // Basics
    Identifier,
    // Literals
    Str,
    Number,
    // Arithmetic operators
    Plus,
    Minus,
    Star,
    Slash,
    Percent,
    // Assignment operators
    Equal,
    // Comparison operators
    Less,
    Greater,
    LessEqual,
    GreaterEqual,
    DoubleEqual,
    NotEqual,
    // Logical operators
    AndAnd,
    OrOr,
    Not,
    // Bitwise operators
    And,
    Or,
    Caret,
    Tilde,
    ShiftLeft,
    ShiftRight,
    // Punctuation
    Comma,
    Semicolon,
    Colon,
    DoubleColon,
    Dot,
    // Grouping
    LeftParen,
    RightParen,
    LeftBrace,
    RightBrace,
}

/// A token together with the span of source text it was matched from.
#[derive(Debug, Clone, Copy, PartialEq, Eq, Structural)]
pub struct TokenSpan {
    pub token: Token,
    pub span: Span,
}

} // verus!
