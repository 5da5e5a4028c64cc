//! The parser: recursive descent with one token of lookahead over the
//! lexer's output, producing an AST or the first parse error.
//!
//! The grammar:
//! ```text
//! function    := 'fn' IDENT '(' ')' ':' IDENT '{' stmt* '}'
//! stmt        := let_stmt | return_stmt
//! let_stmt    := 'let' IDENT '=' expr ';'
//! return_stmt := 'return' expr ';'
//! expr        := primary (op primary)*
//! primary     := NUMBER | IDENT
//! op          := '+' | '-' | '*' | '/'
//! ```
//!
//! Expressions fold strictly left-to-right with no operator precedence:
//! `a + b * c` parses as `(a + b) * c`. This is part of the language's
//! definition, not an omission.
//!
//! Each parsing step is specified as a pure function over the token
//! sequence (`spec_parse_function` and its helpers), and the executable
//! parser is proved to return exactly the specified result.

use vstd::prelude::*;
use crate::token::{Span, Token, TokenSpan};
use crate::lexer::{tokens_from, end_span_of, lex, is_digit_char, lemma_skip_end, lemma_match_at,
    lemma_digit_end, skip_end, match_at, keyword_of, ident_end, digit_end};
use crate::ast::{BinaryOp, Expr, Stmt, Function, SpecExpr, SpecStmt, SpecFunction};
use crate::error::ParserError;

verus! {

// ---------------------------------------------------------------------------
// Token text and numeric values
// ---------------------------------------------------------------------------

/// The source text of token `i`.
pub open spec fn token_text(toks: Seq<TokenSpan>, src: Seq<char>, i: int) -> Seq<char> {
    src.subrange(toks[i].span.start as int, toks[i].span.end as int)
}

/// The value of a sequence of decimal digit characters.
pub open spec fn digits_val(t: Seq<char>) -> int
    decreases t.len(),
{
    if t.len() == 0 {
        0
    } else {
        digits_val(t.drop_last()) * 10 + (t.last() as int - '0' as int)
    }
}

pub proof fn lemma_digits_val_nonneg(t: Seq<char>)
    requires
        forall|k: int| 0 <= k < t.len() ==> is_digit_char(t[k]),
    ensures
        digits_val(t) >= 0,
    decreases t.len(),
{
    if t.len() > 0 {
        lemma_digits_val_nonneg(t.drop_last());
    }
}

pub proof fn lemma_digits_val_prefix(t: Seq<char>, i: int)
    requires
        forall|k: int| 0 <= k < t.len() ==> is_digit_char(t[k]),
        0 <= i <= t.len(),
    ensures
        digits_val(t.subrange(0, i)) <= digits_val(t),
    decreases t.len() - i,
{
    if i < t.len() {
        lemma_digits_val_prefix(t, i + 1);
        assert(t.subrange(0, i + 1).drop_last() =~= t.subrange(0, i));
        assert(t.subrange(0, i + 1).last() == t[i]);
        lemma_digits_val_nonneg(t.subrange(0, i));
    } else {
        assert(t.subrange(0, i) =~= t);
    }
}

// ---------------------------------------------------------------------------
// Well-formedness of the lexer's tokens
// ---------------------------------------------------------------------------

/// What holds of every token the lexer produces: a non-empty span within
/// the source, and, for a `Number`, a text of decimal digits.
pub open spec fn token_wf(s: Seq<char>, ts: TokenSpan) -> bool {
    &&& ts.span.start < ts.span.end <= s.len()
    &&& (ts.token == Token::Number ==> forall|k: int|
        ts.span.start <= k < ts.span.end ==> is_digit_char(s[k]))
}

pub proof fn lemma_tokens_wf(s: Seq<char>, pos: int)
    requires
        0 <= pos <= s.len(),
        s.len() <= usize::MAX,
    ensures
        forall|k: int|
            0 <= k < tokens_from(s, pos).len() ==> #[trigger] token_wf(s, tokens_from(s, pos)[k]),
    decreases s.len() - pos,
{
    let p = skip_end(s, pos);
    lemma_skip_end(s, pos);
    if p < s.len() {
        match match_at(s, p) {
            Some((t, e)) => {
                lemma_match_at(s, p);
                let ts = TokenSpan { token: t, span: Span { start: p as usize, end: e as usize } };
                if is_digit_char(s[p]) && !crate::lexer::is_ident_start_char(s[p]) {
                    lemma_digit_end(s, p + 1);
                }
                assert(keyword_of(s.subrange(p, ident_end(s, p + 1))) != Some(Token::Number));
                assert(token_wf(s, ts));
                lemma_tokens_wf(s, e);
                assert(tokens_from(s, pos) == seq![ts] + tokens_from(s, e));
                assert forall|k: int| 0 <= k < tokens_from(s, pos).len() implies #[trigger] token_wf(
                    s,
                    tokens_from(s, pos)[k],
                ) by {
                    if k == 0 {
                    } else {
                        assert(tokens_from(s, pos)[k] == tokens_from(s, e)[k - 1]);
                    }
                }
            }
            None => {}
        }
    }
}

/// Every numeric literal among the source's tokens has a value that fits
/// in an `i64`. The parser materializes a literal's value the moment it
/// parses it at expression position, so this is what keeps the parse
/// within machine integers.
pub open spec fn numbers_fit(src: Seq<char>) -> bool {
    forall|k: int|
        0 <= k < tokens_from(src, 0).len() && (#[trigger] tokens_from(src, 0)[k]).token
            == Token::Number ==> digits_val(
            src.subrange(
                tokens_from(src, 0)[k].span.start as int,
                tokens_from(src, 0)[k].span.end as int,
            ),
        ) <= i64::MAX
}

// ---------------------------------------------------------------------------
// The grammar as pure functions over the token sequence
// ---------------------------------------------------------------------------

/// Consume token `i` if it is `expected`; the result is the next
/// position, or the error the mismatch raises.
pub open spec fn spec_expect(toks: Seq<TokenSpan>, i: int, expected: Token) -> Result<
    int,
    ParserError,
> {
    if i >= toks.len() {
        Err(ParserError::UnexpectedEof)
    } else if toks[i].token == expected {
        Ok(i + 1)
    } else {
        Err(
            ParserError::UnexpectedToken {
                expected,
                found: toks[i].token,
                span: toks[i].span,
            },
        )
    }
}

/// Consume an identifier at `i`, yielding its verbatim text. `end_span`
/// is the span reported when the stream has ended.
pub open spec fn spec_parse_identifier(
    toks: Seq<TokenSpan>,
    src: Seq<char>,
    i: int,
    end_span: Span,
) -> Result<Seq<char>, ParserError> {
    if i < toks.len() && toks[i].token == Token::Identifier {
        Ok(token_text(toks, src, i))
    } else if i < toks.len() {
        Err(ParserError::ExpectedIdentifier { found: Some(toks[i].token), span: toks[i].span })
    } else {
        Err(ParserError::ExpectedIdentifier { found: None, span: end_span })
    }
}

/// A primary expression at `i`: a numeric literal or a variable
/// reference, consuming exactly one token.
pub open spec fn spec_parse_primary(toks: Seq<TokenSpan>, src: Seq<char>, i: int) -> Result<
    SpecExpr,
    ParserError,
> {
    if i >= toks.len() {
        Err(ParserError::UnexpectedEof)
    } else if toks[i].token == Token::Number {
        Ok(SpecExpr::Number(digits_val(token_text(toks, src, i))))
    } else if toks[i].token == Token::Identifier {
        Ok(SpecExpr::Variable(token_text(toks, src, i)))
    } else {
        Err(ParserError::UnexpectedExprToken { found: toks[i].token, span: toks[i].span })
    }
}

/// The binary operator a token denotes, if any.
pub open spec fn op_of(t: Token) -> Option<BinaryOp> {
    match t {
        Token::Plus => Some(BinaryOp::Add),
        Token::Minus => Some(BinaryOp::Sub),
        Token::Star => Some(BinaryOp::Mul),
        Token::Slash => Some(BinaryOp::Div),
        _ => None,
    }
}

/// Fold `(op primary)*` onto `acc`, strictly left-to-right: each step
/// wraps the accumulator as the left operand of a new binary node.
pub open spec fn spec_parse_expr_rest(
    toks: Seq<TokenSpan>,
    src: Seq<char>,
    i: int,
    acc: SpecExpr,
) -> Result<(SpecExpr, int), ParserError>
    decreases toks.len() - i,
        when 0 <= i
{
    if i < toks.len() {
        match op_of(toks[i].token) {
            Some(op) => match spec_parse_primary(toks, src, i + 1) {
                Ok(e) => {
                    proof {
                        assert(i + 1 < toks.len());
                    }
                    spec_parse_expr_rest(
                        toks,
                        src,
                        i + 2,
                        SpecExpr::Binary { left: Box::new(acc), op, right: Box::new(e) },
                    )
                }
                Err(err) => Err(err),
            },
            None => Ok((acc, i)),
        }
    } else {
        Ok((acc, i))
    }
}

/// An expression at `i`: a primary followed by the left-to-right fold.
pub open spec fn spec_parse_expr(toks: Seq<TokenSpan>, src: Seq<char>, i: int) -> Result<
    (SpecExpr, int),
    ParserError,
> {
    match spec_parse_primary(toks, src, i) {
        Ok(e) => spec_parse_expr_rest(toks, src, i + 1, e),
        Err(err) => Err(err),
    }
}

/// A statement at `i`, dispatched on its first token: `let` or `return`;
/// any other token is an error. Only called with a token available.
pub open spec fn spec_parse_stmt(
    toks: Seq<TokenSpan>,
    src: Seq<char>,
    end_span: Span,
    i: int,
) -> Result<(SpecStmt, int), ParserError> {
    if i < toks.len() && toks[i].token == Token::Let {
        match spec_parse_identifier(toks, src, i + 1, end_span) {
            Ok(name) => match spec_expect(toks, i + 2, Token::Equal) {
                Ok(j) => match spec_parse_expr(toks, src, j) {
                    Ok((value, k)) => match spec_expect(toks, k, Token::Semicolon) {
                        Ok(m) => Ok((SpecStmt::Let { name, value }, m)),
                        Err(e) => Err(e),
                    },
                    Err(e) => Err(e),
                },
                Err(e) => Err(e),
            },
            Err(e) => Err(e),
        }
    } else if i < toks.len() && toks[i].token == Token::Return {
        match spec_parse_expr(toks, src, i + 1) {
            Ok((value, k)) => match spec_expect(toks, k, Token::Semicolon) {
                Ok(m) => Ok((SpecStmt::Return(value), m)),
                Err(e) => Err(e),
            },
            Err(e) => Err(e),
        }
    } else if i < toks.len() {
        Err(ParserError::UnexpectedExprToken { found: toks[i].token, span: toks[i].span })
    } else {
        Err(ParserError::UnexpectedEof)
    }
}

pub proof fn lemma_parse_expr_rest_bounds(toks: Seq<TokenSpan>, src: Seq<char>, i: int, acc: SpecExpr)
    requires
        0 <= i <= toks.len(),
    ensures
        match spec_parse_expr_rest(toks, src, i, acc) {
            Ok((e, j)) => i <= j <= toks.len(),
            Err(_) => true,
        },
    decreases toks.len() - i,
{
    if i < toks.len() {
        match op_of(toks[i].token) {
            Some(op) => match spec_parse_primary(toks, src, i + 1) {
                Ok(e) => {
                    lemma_parse_expr_rest_bounds(
                        toks,
                        src,
                        i + 2,
                        SpecExpr::Binary { left: Box::new(acc), op, right: Box::new(e) },
                    );
                }
                Err(_) => {}
            },
            None => {}
        }
    }
}

pub proof fn lemma_parse_expr_bounds(toks: Seq<TokenSpan>, src: Seq<char>, i: int)
    requires
        0 <= i <= toks.len(),
    ensures
        match spec_parse_expr(toks, src, i) {
            Ok((e, j)) => i < j <= toks.len(),
            Err(_) => true,
        },
{
    match spec_parse_primary(toks, src, i) {
        Ok(e) => {
            lemma_parse_expr_rest_bounds(toks, src, i + 1, e);
        }
        Err(_) => {}
    }
}

pub proof fn lemma_parse_stmt_advances(toks: Seq<TokenSpan>, src: Seq<char>, end_span: Span, i: int)
    requires
        0 <= i <= toks.len(),
    ensures
        match spec_parse_stmt(toks, src, end_span, i) {
            Ok((st, m)) => i < m <= toks.len(),
            Err(_) => true,
        },
{
    if i < toks.len() && toks[i].token == Token::Let {
        match spec_parse_identifier(toks, src, i + 1, end_span) {
            Ok(_) => match spec_expect(toks, i + 2, Token::Equal) {
                Ok(j) => {
                    lemma_parse_expr_bounds(toks, src, j);
                }
                Err(_) => {}
            },
            Err(_) => {}
        }
    } else if i < toks.len() && toks[i].token == Token::Return {
        lemma_parse_expr_bounds(toks, src, i + 1);
    }
}

/// The statement list of a function body: statements until the closing
/// brace or the end of the stream.
pub open spec fn spec_parse_body(
    toks: Seq<TokenSpan>,
    src: Seq<char>,
    end_span: Span,
    i: int,
) -> Result<(Seq<SpecStmt>, int), ParserError>
    decreases toks.len() - i,
        when 0 <= i <= toks.len()
{
    if i >= toks.len() {
        Ok((Seq::empty(), i))
    } else if toks[i].token == Token::RightBrace {
        Ok((Seq::empty(), i))
    } else {
        match spec_parse_stmt(toks, src, end_span, i) {
            Ok((st, j)) => {
                proof {
                    lemma_parse_stmt_advances(toks, src, end_span, i);
                }
                match spec_parse_body(toks, src, end_span, j) {
                    Ok((rest, k)) => Ok((seq![st] + rest, k)),
                    Err(e) => Err(e),
                }
            }
            Err(e) => Err(e),
        }
    }
}

/// A whole function declaration starting at token `i`: the fixed shape
/// `fn IDENT ( ) : IDENT { stmt* }`. Tokens after the closing brace are
/// not inspected.
pub open spec fn spec_parse_function(
    toks: Seq<TokenSpan>,
    src: Seq<char>,
    end_span: Span,
    i: int,
) -> Result<SpecFunction, ParserError> {
    match spec_expect(toks, i, Token::Fn) {
        Ok(i1) => match spec_parse_identifier(toks, src, i1, end_span) {
            Ok(name) => match spec_expect(toks, i1 + 1, Token::LeftParen) {
                Ok(i2) => match spec_expect(toks, i2, Token::RightParen) {
                    Ok(i3) => match spec_expect(toks, i3, Token::Colon) {
                        Ok(i4) => match spec_parse_identifier(toks, src, i4, end_span) {
                            Ok(return_type) => match spec_expect(toks, i4 + 1, Token::LeftBrace) {
                                Ok(i5) => {
                                    match spec_parse_body(toks, src, end_span, i5) {
                                        Ok((body, k)) => match spec_expect(
                                            toks,
                                            k,
                                            Token::RightBrace,
                                        ) {
                                            Ok(_) => Ok(
                                                SpecFunction { name, return_type, body },
                                            ),
                                            Err(e) => Err(e),
                                        },
                                        Err(e) => Err(e),
                                    }
                                }
                                Err(e) => Err(e),
                            },
                            Err(e) => Err(e),
                        },
                        Err(e) => Err(e),
                    },
                    Err(e) => Err(e),
                },
                Err(e) => Err(e),
            },
            Err(e) => Err(e),
        },
        Err(e) => Err(e),
    }
}

// ---------------------------------------------------------------------------
// Executable digit conversion
// ---------------------------------------------------------------------------

fn digits_to_i64(s: &str, start: usize, end: usize) -> (v: i64)
    requires
        start < end <= s@.len(),
        forall|k: int| start <= k < end ==> is_digit_char(s@[k]),
        digits_val(s@.subrange(start as int, end as int)) <= i64::MAX,
    ensures
        v as int == digits_val(s@.subrange(start as int, end as int)),
{
    let ghost t = s@.subrange(start as int, end as int);
    let mut acc: i64 = 0;
    let mut i: usize = start;
    proof {
        assert(t.subrange(0, 0) =~= Seq::<char>::empty());
    }
    while i < end
        invariant
            start <= i <= end,
            end <= s@.len(),
            t == s@.subrange(start as int, end as int),
            forall|k: int| start <= k < end ==> is_digit_char(s@[k]),
            digits_val(t) <= i64::MAX,
            acc as int == digits_val(t.subrange(0, i - start)),
            acc >= 0,
        decreases end - i,
    {
        let c = s.get_char(i);
        assert(is_digit_char(c));
        let d: u32 = (c as u32) - 48;
        proof {
            let j = i - start;
            assert(forall|k: int| 0 <= k < t.len() ==> is_digit_char(t[k]));
            assert(t.subrange(0, j + 1).drop_last() =~= t.subrange(0, j));
            assert(t.subrange(0, j + 1).last() == t[j] == c);
            lemma_digits_val_prefix(t, j + 1);
            lemma_digits_val_nonneg(t.subrange(0, j + 1));
            assert(digits_val(t.subrange(0, j + 1)) == acc * 10 + (c as int - '0' as int));
        }
        acc = acc * 10 + (d as i64);
        i = i + 1;
    }
    proof {
        assert(t.subrange(0, (end - start) as int) =~= t);
    }
    acc
}

fn digits_fit_i64(s: &str, start: usize, end: usize) -> (b: bool)
    requires
        start < end <= s@.len(),
        forall|k: int| start <= k < end ==> is_digit_char(s@[k]),
    ensures
        b == (digits_val(s@.subrange(start as int, end as int)) <= i64::MAX),
{
    let ghost t = s@.subrange(start as int, end as int);
    let mut acc: u128 = 0;
    let mut i: usize = start;
    proof {
        assert(t.subrange(0, 0) =~= Seq::<char>::empty());
    }
    while i < end
        invariant
            start <= i <= end,
            end <= s@.len(),
            t == s@.subrange(start as int, end as int),
            forall|k: int| start <= k < end ==> is_digit_char(s@[k]),
            acc as int == digits_val(t.subrange(0, i - start)),
            acc <= i64::MAX as u128,
        decreases end - i,
    {
        let c = s.get_char(i);
        assert(is_digit_char(c));
        let d: u32 = (c as u32) - 48;
        proof {
            let j = i - start;
            assert(forall|k: int| 0 <= k < t.len() ==> is_digit_char(t[k]));
            assert(t.subrange(0, j + 1).drop_last() =~= t.subrange(0, j));
            assert(t.subrange(0, j + 1).last() == t[j] == c);
            assert(digits_val(t.subrange(0, j + 1)) == acc * 10 + (c as int - '0' as int));
        }
        let next: u128 = acc * 10 + (d as u128);
        if next > i64::MAX as u128 {
            proof {
                let j = i - start;
                lemma_digits_val_prefix(t, j + 1);
            }
            return false;
        }
        acc = next;
        i = i + 1;
    }
    proof {
        assert(t.subrange(0, (end - start) as int) =~= t);
    }
    true
}

// ---------------------------------------------------------------------------
// The parser
// ---------------------------------------------------------------------------

/// The single-lookahead cursor over the token stream of one source text.
pub struct Parser<'s> {
    src: &'s str,
    toks: Vec<TokenSpan>,
    end_span: Span,
    pos: usize,
}

impl<'s> Parser<'s> {
    /// The character sequence of the source text this parser reads.
    pub closed spec fn src_view(&self) -> Seq<char> {
        self.src@
    }

    /// The index of the current lookahead token.
    pub closed spec fn cursor(&self) -> int {
        self.pos as int
    }

    /// Well-formed: the token list is the lexer's output for the source,
    /// the end span is where lexing stopped, and the cursor is in range.
    pub closed spec fn wf(&self) -> bool {
        &&& self.src@.len() <= usize::MAX
        &&& self.toks@ == tokens_from(self.src@, 0)
        &&& self.end_span == end_span_of(self.src@)
        &&& self.pos <= self.toks@.len()
    }

    /// A parser over the given source text, with the cursor on the first
    /// token.
    pub fn new(src: &'s str) -> (p: Parser<'s>)
        ensures
            p.wf(),
            p.src_view() == src@,
            p.cursor() == 0,
    {
        let (toks, end_span) = lex(src);
        Parser { src, toks, end_span, pos: 0 }
    }

    /// Whether every numeric literal among the tokens fits in an `i64`:
    /// the executable test for `parse_function`'s precondition.
    pub fn numbers_in_range(&self) -> (b: bool)
        requires
            self.wf(),
        ensures
            b == numbers_fit(self.src_view()),
    {
        proof {
            lemma_tokens_wf(self.src@, 0);
        }
        let n = self.toks.len();
        let mut k: usize = 0;
        while k < n
            invariant
                self.wf(),
                n == self.toks@.len(),
                k <= n,
                forall|j: int|
                    0 <= j < k && (#[trigger] tokens_from(self.src@, 0)[j]).token == Token::Number
                        ==> digits_val(
                        self.src@.subrange(
                            tokens_from(self.src@, 0)[j].span.start as int,
                            tokens_from(self.src@, 0)[j].span.end as int,
                        ),
                    ) <= i64::MAX,
                forall|j: int|
                    0 <= j < tokens_from(self.src@, 0).len() ==> #[trigger] token_wf(
                        self.src@,
                        tokens_from(self.src@, 0)[j],
                    ),
            decreases n - k,
        {
            let ts = self.toks[k];
            if ts.token == Token::Number {
                proof {
                    assert(token_wf(self.src@, tokens_from(self.src@, 0)[k as int]));
                }
                if !digits_fit_i64(self.src, ts.span.start, ts.span.end) {
                    return false;
                }
            }
            k = k + 1;
        }
        true
    }

    fn bump(&mut self)
        requires
            old(self).wf(),
            old(self).pos < old(self).toks@.len(),
        ensures
            final(self).wf(),
            final(self).src == old(self).src,
            final(self).toks == old(self).toks,
            final(self).end_span == old(self).end_span,
            final(self).pos == old(self).pos + 1,
    {
        let n = self.toks.len();
        proof {
            assert(self.pos < n);
        }
        self.pos = self.pos + 1;
    }

    fn expect(&mut self, expected: Token) -> (r: Result<(), ParserError>)
        requires
            old(self).wf(),
        ensures
            final(self).wf(),
            final(self).src == old(self).src,
            final(self).toks == old(self).toks,
            final(self).end_span == old(self).end_span,
            match r {
                Ok(_) => spec_expect(old(self).toks@, old(self).pos as int, expected) == Ok::<
                    int,
                    ParserError,
                >(final(self).pos as int) && final(self).pos == old(self).pos + 1,
                Err(e) => spec_expect(old(self).toks@, old(self).pos as int, expected) == Err::<
                    int,
                    ParserError,
                >(e) && final(self).pos == old(self).pos,
            },
    {
        if self.pos < self.toks.len() {
            let ts = self.toks[self.pos];
            if ts.token == expected {
                self.bump();
                Ok(())
            } else {
                Err(ParserError::UnexpectedToken { expected, found: ts.token, span: ts.span })
            }
        } else {
            Err(ParserError::UnexpectedEof)
        }
    }

    /// The verbatim text of the current token.
    fn text_at(&self) -> (r: String)
        requires
            self.wf(),
            self.pos < self.toks@.len(),
        ensures
            r@ == token_text(self.toks@, self.src@, self.pos as int),
    {
        proof {
            lemma_tokens_wf(self.src@, 0);
            assert(token_wf(self.src@, tokens_from(self.src@, 0)[self.pos as int]));
        }
        let ts = self.toks[self.pos];
        let sub = self.src.substring_char(ts.span.start, ts.span.end);
        sub.to_owned()
    }

    fn parse_identifier(&mut self) -> (r: Result<String, ParserError>)
        requires
            old(self).wf(),
        ensures
            final(self).wf(),
            final(self).src == old(self).src,
            final(self).toks == old(self).toks,
            final(self).end_span == old(self).end_span,
            match r {
                Ok(name) => spec_parse_identifier(
                    old(self).toks@,
                    old(self).src@,
                    old(self).pos as int,
                    old(self).end_span,
                ) == Ok::<Seq<char>, ParserError>(name@) && final(self).pos == old(self).pos + 1,
                Err(e) => spec_parse_identifier(
                    old(self).toks@,
                    old(self).src@,
                    old(self).pos as int,
                    old(self).end_span,
                ) == Err::<Seq<char>, ParserError>(e) && final(self).pos == old(self).pos,
            },
    {
        if self.pos < self.toks.len() {
            let ts = self.toks[self.pos];
            if ts.token == Token::Identifier {
                let name = self.text_at();
                self.bump();
                Ok(name)
            } else {
                Err(ParserError::ExpectedIdentifier { found: Some(ts.token), span: ts.span })
            }
        } else {
            Err(ParserError::ExpectedIdentifier { found: None, span: self.end_span })
        }
    }

    fn parse_primary(&mut self) -> (r: Result<Expr, ParserError>)
        requires
            old(self).wf(),
            numbers_fit(old(self).src@),
        ensures
            final(self).wf(),
            final(self).src == old(self).src,
            final(self).toks == old(self).toks,
            final(self).end_span == old(self).end_span,
            match r {
                Ok(e) => spec_parse_primary(old(self).toks@, old(self).src@, old(self).pos as int)
                    == Ok::<SpecExpr, ParserError>(e.model()) && final(self).pos == old(self).pos + 1,
                Err(err) => spec_parse_primary(
                    old(self).toks@,
                    old(self).src@,
                    old(self).pos as int,
                ) == Err::<SpecExpr, ParserError>(err) && final(self).pos == old(self).pos,
            },
    {
        if self.pos < self.toks.len() {
            let ts = self.toks[self.pos];
            match ts.token {
                Token::Number => {
                    proof {
                        lemma_tokens_wf(self.src@, 0);
                        assert(token_wf(self.src@, tokens_from(self.src@, 0)[self.pos as int]));
                        assert((tokens_from(self.src@, 0)[self.pos as int]).token
                            == Token::Number);
                    }
                    let v = digits_to_i64(self.src, ts.span.start, ts.span.end);
                    self.bump();
                    Ok(Expr::Number(v))
                }
                Token::Identifier => {
                    let name = self.text_at();
                    self.bump();
                    Ok(Expr::Variable(name))
                }
                _ => Err(ParserError::UnexpectedExprToken { found: ts.token, span: ts.span }),
            }
        } else {
            Err(ParserError::UnexpectedEof)
        }
    }

    /// The operator denoted by the current token, if any; does not
    /// consume it.
    fn parse_op(&self) -> (r: Option<BinaryOp>)
        requires
            self.wf(),
        ensures
            r == (if self.pos < self.toks@.len() {
                op_of(self.toks@[self.pos as int].token)
            } else {
                None
            }),
    {
        if self.pos < self.toks.len() {
            match self.toks[self.pos].token {
                Token::Plus => Some(BinaryOp::Add),
                Token::Minus => Some(BinaryOp::Sub),
                Token::Star => Some(BinaryOp::Mul),
                Token::Slash => Some(BinaryOp::Div),
                _ => None,
            }
        } else {
            None
        }
    }

    fn parse_expr_rest(&mut self, left: Expr) -> (r: Result<Expr, ParserError>)
        requires
            old(self).wf(),
            numbers_fit(old(self).src@),
        ensures
            final(self).wf(),
            final(self).src == old(self).src,
            final(self).toks == old(self).toks,
            final(self).end_span == old(self).end_span,
            match r {
                Ok(e) => spec_parse_expr_rest(
                    old(self).toks@,
                    old(self).src@,
                    old(self).pos as int,
                    left.model(),
                ) == Ok::<(SpecExpr, int), ParserError>((e.model(), final(self).pos as int)),
                Err(err) => spec_parse_expr_rest(
                    old(self).toks@,
                    old(self).src@,
                    old(self).pos as int,
                    left.model(),
                ) == Err::<(SpecExpr, int), ParserError>(err),
            },
        decreases old(self).toks@.len() - old(self).pos,
    {
        match self.parse_op() {
            Some(op) => {
                self.bump();
                match self.parse_primary() {
                    Ok(right) => {
                        let e = Expr::Binary { left: Box::new(left), op, right: Box::new(right) };
                        self.parse_expr_rest(e)
                    }
                    Err(err) => Err(err),
                }
            }
            None => Ok(left),
        }
    }

    fn parse_expr(&mut self) -> (r: Result<Expr, ParserError>)
        requires
            old(self).wf(),
            numbers_fit(old(self).src@),
        ensures
            final(self).wf(),
            final(self).src == old(self).src,
            final(self).toks == old(self).toks,
            final(self).end_span == old(self).end_span,
            match r {
                Ok(e) => spec_parse_expr(old(self).toks@, old(self).src@, old(self).pos as int)
                    == Ok::<(SpecExpr, int), ParserError>((e.model(), final(self).pos as int)),
                Err(err) => spec_parse_expr(old(self).toks@, old(self).src@, old(self).pos as int)
                    == Err::<(SpecExpr, int), ParserError>(err),
            },
    {
        match self.parse_primary() {
            Ok(first) => self.parse_expr_rest(first),
            Err(err) => Err(err),
        }
    }

    fn parse_stmt(&mut self) -> (r: Result<Stmt, ParserError>)
        requires
            old(self).wf(),
            numbers_fit(old(self).src@),
            old(self).pos < old(self).toks@.len(),
        ensures
            final(self).wf(),
            final(self).src == old(self).src,
            final(self).toks == old(self).toks,
            final(self).end_span == old(self).end_span,
            match r {
                Ok(st) => spec_parse_stmt(
                    old(self).toks@,
                    old(self).src@,
                    old(self).end_span,
                    old(self).pos as int,
                ) == Ok::<(SpecStmt, int), ParserError>((st.model(), final(self).pos as int)),
                Err(e) => spec_parse_stmt(
                    old(self).toks@,
                    old(self).src@,
                    old(self).end_span,
                    old(self).pos as int,
                ) == Err::<(SpecStmt, int), ParserError>(e),
            },
    {
        let ts = self.toks[self.pos];
        match ts.token {
            Token::Let => {
                self.bump();
                match self.parse_identifier() {
                    Ok(name) => match self.expect(Token::Equal) {
                        Ok(_) => match self.parse_expr() {
                            Ok(value) => match self.expect(Token::Semicolon) {
                                Ok(_) => Ok(Stmt::Let { name, value }),
                                Err(e) => Err(e),
                            },
                            Err(e) => Err(e),
                        },
                        Err(e) => Err(e),
                    },
                    Err(e) => Err(e),
                }
            }
            Token::Return => {
                self.bump();
                match self.parse_expr() {
                    Ok(value) => match self.expect(Token::Semicolon) {
                        Ok(_) => Ok(Stmt::Return(value)),
                        Err(e) => Err(e),
                    },
                    Err(e) => Err(e),
                }
            }
            _ => Err(ParserError::UnexpectedExprToken { found: ts.token, span: ts.span }),
        }
    }

    fn parse_body(&mut self) -> (r: Result<Vec<Stmt>, ParserError>)
        requires
            old(self).wf(),
            numbers_fit(old(self).src@),
        ensures
            final(self).wf(),
            final(self).src == old(self).src,
            final(self).toks == old(self).toks,
            final(self).end_span == old(self).end_span,
            match r {
                Ok(v) => spec_parse_body(
                    old(self).toks@,
                    old(self).src@,
                    old(self).end_span,
                    old(self).pos as int,
                ) == Ok::<(Seq<SpecStmt>, int), ParserError>(
                    (v@.map_values(|st: Stmt| st.model()), final(self).pos as int),
                ),
                Err(e) => spec_parse_body(
                    old(self).toks@,
                    old(self).src@,
                    old(self).end_span,
                    old(self).pos as int,
                ) == Err::<(Seq<SpecStmt>, int), ParserError>(e),
            },
        decreases old(self).toks@.len() - old(self).pos,
    {
        if self.pos >= self.toks.len() {
            let v: Vec<Stmt> = Vec::new();
            proof {
                assert(v@.map_values(|st: Stmt| st.model()) =~= Seq::<SpecStmt>::empty());
            }
            return Ok(v);
        }
        if self.toks[self.pos].token == Token::RightBrace {
            let v: Vec<Stmt> = Vec::new();
            proof {
                assert(v@.map_values(|st: Stmt| st.model()) =~= Seq::<SpecStmt>::empty());
            }
            return Ok(v);
        }
        let ghost toks0 = self.toks@;
        let ghost src0 = self.src@;
        let ghost end0 = self.end_span;
        let ghost pos0 = self.pos as int;
        proof {
            lemma_parse_stmt_advances(toks0, src0, end0, pos0);
        }
        match self.parse_stmt() {
            Ok(st) => {
                match self.parse_body() {
                    Ok(mut rest) => {
                        let ghost rest0 = rest@;
                        rest.insert(0, st);
                        proof {
                            assert(rest@ =~= seq![st] + rest0);
                            assert(rest@.map_values(|s2: Stmt| s2.model()) =~= seq![st.model()]
                                + rest0.map_values(|s2: Stmt| s2.model()));
                        }
                        Ok(rest)
                    }
                    Err(e) => Err(e),
                }
            }
            Err(e) => Err(e),
        }
    }

    /// Parse one whole function declaration from the current position.
    /// The result is exactly what the grammar specification yields on the
    /// token stream; on an error the cursor stands where parsing stopped,
    /// and a fresh parser should be built to parse other input.
    pub fn parse_function(&mut self) -> (r: Result<Function, ParserError>)
        requires
            old(self).wf(),
            numbers_fit(old(self).src_view()),
        ensures
            final(self).wf(),
            final(self).src_view() == old(self).src_view(),
            match r {
                Ok(f) => spec_parse_function(
                    tokens_from(old(self).src_view(), 0),
                    old(self).src_view(),
                    end_span_of(old(self).src_view()),
                    old(self).cursor(),
                ) == Ok::<SpecFunction, ParserError>(f.model()),
                Err(e) => spec_parse_function(
                    tokens_from(old(self).src_view(), 0),
                    old(self).src_view(),
                    end_span_of(old(self).src_view()),
                    old(self).cursor(),
                ) == Err::<SpecFunction, ParserError>(e),
            },
    {
        match self.expect(Token::Fn) {
            Ok(_) => {}
            Err(e) => {
                return Err(e);
            }
        }
        let name = match self.parse_identifier() {
            Ok(n) => n,
            Err(e) => {
                return Err(e);
            }
        };
        match self.expect(Token::LeftParen) {
            Ok(_) => {}
            Err(e) => {
                return Err(e);
            }
        }
        match self.expect(Token::RightParen) {
            Ok(_) => {}
            Err(e) => {
                return Err(e);
            }
        }
        match self.expect(Token::Colon) {
            Ok(_) => {}
            Err(e) => {
                return Err(e);
            }
        }
        let return_type = match self.parse_identifier() {
            Ok(n) => n,
            Err(e) => {
                return Err(e);
            }
        };
        match self.expect(Token::LeftBrace) {
            Ok(_) => {}
            Err(e) => {
                return Err(e);
            }
        }
        let body = match self.parse_body() {
            Ok(b) => b,
            Err(e) => {
                return Err(e);
            }
        };
        match self.expect(Token::RightBrace) {
            Ok(_) => {}
            Err(e) => {
                return Err(e);
            }
        }
        Ok(Function { name, return_type, body })
    }
}

} // verus!
