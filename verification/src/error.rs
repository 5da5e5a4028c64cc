//! Diagnostics: the closed set of parse-error kinds, and the rendering of
//! an error against the original source text as a multi-line annotated
//! message with a `file:line:column` locator and a caret.
//!
//! Rendering is specified down to the exact character sequence
//! (`render_error`), including the ANSI colour escapes, and `pprint` is
//! proved to produce it.

use vstd::prelude::*;
use crate::token::{Span, Token};
use crate::lexer::line_end;
use crate::decimal::{dec_nat, spaces, usize_to_string, spaces_string};

verus! {

/// A parse error, carrying exactly the context needed to render a
/// one-error, one-location message.
#[derive(Debug, PartialEq, Eq)]
pub enum ParserError {
    /// A token was required but the stream had ended (or lexing had
    /// stopped at unmatched input, which is indistinguishable).
    UnexpectedEof,
    /// `expected` was required but `found` stood at `span`.
    UnexpectedToken { expected: Token, found: Token, span: Span },
    /// An identifier was required; `found` is the token there, or `None`
    /// at end of input.
    ExpectedIdentifier { found: Option<Token>, span: Span },
    /// An invalid token at expression or statement position.
    UnexpectedExprToken { found: Token, span: Span },
}

// ---------------------------------------------------------------------------
// Line and column lookup
// ---------------------------------------------------------------------------

/// Walk the lines of `s` from line start `ls` (line number `num`,
/// 1-based) to the line containing position `offset`; the result is
/// `(line number, 1-based column, line start)`. Each line notionally
/// includes its terminating newline; if `offset` lies past the last line,
/// the fallback is column 1 on the line after the last, at the end of the
/// text.
pub open spec fn line_info_from(s: Seq<char>, ls: int, num: int, offset: int) -> (int, int, int)
    decreases s.len() + 1 - ls,
        when 0 <= ls <= s.len() + 1
{
    if ls >= s.len() {
        (num, 1, s.len() as int)
    } else {
        let nl = line_end(s, ls);
        proof {
            crate::lexer::lemma_line_end(s, ls);
        }
        let ll = nl - ls + 1;
        if ls + ll > offset {
            (num, offset - ls + 1, ls)
        } else {
            line_info_from(s, nl + 1, num + 1, offset)
        }
    }
}

/// The 1-based line and column of `offset` in `s`, and the start of its
/// line.
pub open spec fn spec_line_info(s: Seq<char>, offset: int) -> (int, int, int) {
    line_info_from(s, 0, 1, offset)
}

pub proof fn lemma_line_info_from(s: Seq<char>, ls: int, num: int, offset: int)
    requires
        0 <= ls <= s.len(),
        ls <= offset,
        1 <= num,
        num <= ls + 1,
    ensures
        ({
            let (n, c, l) = line_info_from(s, ls, num, offset);
            num <= n && 1 <= c && 0 <= l <= s.len()
        }),
    decreases s.len() + 1 - ls,
{
    if ls >= s.len() {
    } else {
        let nl = line_end(s, ls);
        crate::lexer::lemma_line_end(s, ls);
        let ll = nl - ls + 1;
        if ls + ll > offset {
        } else if nl + 1 <= s.len() {
            assert(offset >= ls + ll == nl + 1);
            lemma_line_info_from(s, nl + 1, num + 1, offset);
        } else {
            assert(line_info_from(s, nl + 1, num + 1, offset) == (num + 1, 1int, s.len() as int));
        }
    }
}

fn line_info_from_exec(s: &str, n: usize, ls: usize, num: usize, offset: usize) -> (r: (
    usize,
    usize,
    usize,
))
    requires
        n == s@.len(),
        n < usize::MAX,
        ls <= n,
        ls <= offset,
        1 <= num,
        num <= ls + 1,
    ensures
        ({
            let (a, b, c) = line_info_from(s@, ls as int, num as int, offset as int);
            r.0 as int == a && r.1 as int == b && r.2 as int == c
        }),
    decreases n - ls,
{
    if ls >= n {
        (num, 1, n)
    } else {
        let nl = crate::lexer::line_end_for(s, n, ls);
        if nl >= offset {
            (num, offset - ls + 1, ls)
        } else if nl >= n {
            proof {
                assert(line_info_from(s@, nl + 1, num as int + 1, offset as int) == (
                    num + 1,
                    1int,
                    s@.len() as int,
                ));
            }
            (num + 1, 1, n)
        } else {
            line_info_from_exec(s, n, nl + 1, num + 1, offset)
        }
    }
}

/// The 1-based line and column of position `offset` in `source`, and the
/// position at which that line starts.
pub fn find_line_info(source: &str, offset: usize) -> (r: (usize, usize, usize))
    requires
        source@.len() < usize::MAX,
    ensures
        ({
            let (a, b, c) = spec_line_info(source@, offset as int);
            r.0 as int == a && r.1 as int == b && r.2 as int == c
        }),
{
    let n = source.unicode_len();
    line_info_from_exec(source, n, 0, 1, offset)
}

// ---------------------------------------------------------------------------
// Message rendering (specification)
// ---------------------------------------------------------------------------

/// The display name of a token kind, as it appears in diagnostics.
pub open spec fn token_name(t: Token) -> Seq<char> {
    match t {
        Token::Fn => "Fn"@,
        Token::Return => "Return"@,
        Token::Let => "Let"@,
        Token::For => "For"@,
        Token::In => "In"@,
        Token::While => "While"@,
        Token::Break => "Break"@,
        Token::Continue => "Continue"@,
        Token::If => "If"@,
        Token::Else => "Else"@,
        Token::Identifier => "Identifier"@,
        Token::Str => "String"@,
        Token::Number => "Number"@,
        Token::Plus => "Plus"@,
        Token::Minus => "Minus"@,
        Token::Star => "Star"@,
        Token::Slash => "Slash"@,
        Token::Percent => "Percent"@,
        Token::Equal => "Equal"@,
        Token::Less => "Less"@,
        Token::Greater => "Greater"@,
        Token::LessEqual => "LessEqual"@,
        Token::GreaterEqual => "GreaterEqual"@,
        Token::DoubleEqual => "DoubleEqual"@,
        Token::NotEqual => "NotEqual"@,
        Token::AndAnd => "AndAnd"@,
        Token::OrOr => "OrOr"@,
        Token::Not => "Not"@,
        Token::And => "And"@,
        Token::Or => "Or"@,
        Token::Caret => "Caret"@,
        Token::Tilde => "Tilde"@,
        Token::ShiftLeft => "ShiftLeft"@,
        Token::ShiftRight => "ShiftRight"@,
        Token::Comma => "Comma"@,
        Token::Semicolon => "Semicolon"@,
        Token::Colon => "Colon"@,
        Token::DoubleColon => "DoubleColon"@,
        Token::Dot => "Dot"@,
        Token::LeftParen => "LeftParen"@,
        Token::RightParen => "RightParen"@,
        Token::LeftBrace => "LeftBrace"@,
        Token::RightBrace => "RightBrace"@,
    }
}

/// A span rendered as `start..end`.
pub open spec fn span_text(sp: Span) -> Seq<char> {
    dec_nat(sp.start as nat) + ".."@ + dec_nat(sp.end as nat)
}

/// An optional token rendered as `Some(name)` or `None`.
pub open spec fn opt_token_name(t: Option<Token>) -> Seq<char> {
    match t {
        Some(t) => "Some("@ + token_name(t) + ")"@,
        None => "None"@,
    }
}

/// The one-line summary of an error.
pub open spec fn error_message(e: ParserError) -> Seq<char> {
    match e {
        ParserError::UnexpectedEof => "Unexpected end of input"@,
        ParserError::UnexpectedToken { expected, found, span } => "Expected "@ + token_name(
            expected,
        ) + ", but found "@ + token_name(found) + " at "@ + span_text(span),
        ParserError::ExpectedIdentifier { found, span } => "Expected identifier, but found "@
            + opt_token_name(found) + " at "@ + span_text(span),
        ParserError::UnexpectedExprToken { found, span } => "Unexpected token in expression, "@
            + token_name(found) + " at "@ + span_text(span),
    }
}

/// The span an error points at. `UnexpectedEof` carries none.
pub open spec fn error_span(e: ParserError) -> Span {
    match e {
        ParserError::UnexpectedEof => Span { start: 0, end: 0 },
        ParserError::UnexpectedToken { span, .. } => span,
        ParserError::ExpectedIdentifier { span, .. } => span,
        ParserError::UnexpectedExprToken { span, .. } => span,
    }
}

/// The line number right-aligned to a width of two characters.
pub open spec fn padded_line_number(n: int) -> Seq<char> {
    if 0 <= n < 10 {
        seq![' '] + dec_nat(n as nat)
    } else {
        dec_nat(n as nat)
    }
}

/// The full annotated message for an error with a location: summary line,
/// `file:line:column` locator, the source line, and a caret under the
/// offending column.
pub open spec fn render_located(msg: Seq<char>, start: int, src: Seq<char>, file: Seq<char>)
    -> Seq<char> {
    let (ln, col, ls) = spec_line_info(src, start);
    let line = src.subrange(ls, line_end(src, ls));
    "\u{1b}[31merror\u{1b}[0m: "@ + msg + "\n"@ + "  \u{1b}[34m-->\u{1b}[0m "@ + file + ":"@
        + dec_nat(ln as nat) + ":"@ + dec_nat(col as nat) + "\n"@ + "   \u{1b}[34m|\u{1b}[0m\n"@
        + "\u{1b}[34m"@ + padded_line_number(ln) + " |\u{1b}[0m "@ + line + "\n"@
        + "   \u{1b}[34m| \u{1b}[31m"@ + spaces((col - 1) as nat) + "^\u{1b}[0m\n"@
}

/// What `pprint` renders: `UnexpectedEof` has no position and renders a
/// short message with an unknown-position marker; every other error is
/// rendered against its source location.
pub open spec fn render_error(e: ParserError, src: Seq<char>, file: Seq<char>) -> Seq<char> {
    match e {
        ParserError::UnexpectedEof => "\u{1b}[31merror\u{1b}[0m: Unexpected end of input\n --> "@
            + file + ":??:??"@,
        _ => render_located(error_message(e), error_span(e).start as int, src, file),
    }
}

// ---------------------------------------------------------------------------
// Executable rendering
// ---------------------------------------------------------------------------

fn token_name_str(t: Token) -> (r: &'static str)
    ensures
        r@ == token_name(t),
{
    match t {
        Token::Fn => "Fn",
        Token::Return => "Return",
        Token::Let => "Let",
        Token::For => "For",
        Token::In => "In",
        Token::While => "While",
        Token::Break => "Break",
        Token::Continue => "Continue",
        Token::If => "If",
        Token::Else => "Else",
        Token::Identifier => "Identifier",
        Token::Str => "String",
        Token::Number => "Number",
        Token::Plus => "Plus",
        Token::Minus => "Minus",
        Token::Star => "Star",
        Token::Slash => "Slash",
        Token::Percent => "Percent",
        Token::Equal => "Equal",
        Token::Less => "Less",
        Token::Greater => "Greater",
        Token::LessEqual => "LessEqual",
        Token::GreaterEqual => "GreaterEqual",
        Token::DoubleEqual => "DoubleEqual",
        Token::NotEqual => "NotEqual",
        Token::AndAnd => "AndAnd",
        Token::OrOr => "OrOr",
        Token::Not => "Not",
        Token::And => "And",
        Token::Or => "Or",
        Token::Caret => "Caret",
        Token::Tilde => "Tilde",
        Token::ShiftLeft => "ShiftLeft",
        Token::ShiftRight => "ShiftRight",
        Token::Comma => "Comma",
        Token::Semicolon => "Semicolon",
        Token::Colon => "Colon",
        Token::DoubleColon => "DoubleColon",
        Token::Dot => "Dot",
        Token::LeftParen => "LeftParen",
        Token::RightParen => "RightParen",
        Token::LeftBrace => "LeftBrace",
        Token::RightBrace => "RightBrace",
    }
}

fn span_text_string(sp: Span) -> (r: String)
    ensures
        r@ == span_text(sp),
{
    let mut s = usize_to_string(sp.start);
    s.append("..");
    let e = usize_to_string(sp.end);
    s.append(e.as_str());
    proof {
        assert(s@ =~= span_text(sp));
    }
    s
}

fn message_string(e: &ParserError) -> (r: String)
    ensures
        r@ == error_message(*e),
{
    match e {
        ParserError::UnexpectedEof => "Unexpected end of input".to_owned(),
        ParserError::UnexpectedToken { expected, found, span } => {
            let mut s = "Expected ".to_owned();
            s.append(token_name_str(*expected));
            s.append(", but found ");
            s.append(token_name_str(*found));
            s.append(" at ");
            let sp = span_text_string(*span);
            s.append(sp.as_str());
            proof {
                assert(s@ =~= error_message(*e));
            }
            s
        }
        ParserError::ExpectedIdentifier { found, span } => {
            let mut s = "Expected identifier, but found ".to_owned();
            match found {
                Some(t) => {
                    s.append("Some(");
                    s.append(token_name_str(*t));
                    s.append(")");
                }
                None => {
                    s.append("None");
                }
            }
            s.append(" at ");
            let sp = span_text_string(*span);
            s.append(sp.as_str());
            proof {
                assert(s@ =~= error_message(*e));
            }
            s
        }
        ParserError::UnexpectedExprToken { found, span } => {
            let mut s = "Unexpected token in expression, ".to_owned();
            s.append(token_name_str(*found));
            s.append(" at ");
            let sp = span_text_string(*span);
            s.append(sp.as_str());
            proof {
                assert(s@ =~= error_message(*e));
            }
            s
        }
    }
}

fn padded_line_string(n: usize) -> (r: String)
    ensures
        r@ == padded_line_number(n as int),
{
    if n < 10 {
        let mut s = " ".to_owned();
        let d = usize_to_string(n);
        s.append(d.as_str());
        proof {
            reveal_strlit(" ");
            assert(" "@ =~= seq![' ']);
            assert(s@ =~= padded_line_number(n as int));
        }
        s
    } else {
        usize_to_string(n)
    }
}

impl ParserError {
    /// Render this error against the original source text and a file
    /// label as a multi-line annotated message.
    pub fn pprint(&self, source: &str, file: &str) -> (r: String)
        requires
            source@.len() < usize::MAX,
        ensures
            r@ == render_error(*self, source@, file@),
    {
        match self {
            ParserError::UnexpectedEof => {
                let mut s = "\u{1b}[31merror\u{1b}[0m: Unexpected end of input\n --> ".to_owned();
                s.append(file);
                s.append(":??:??");
                proof {
                    assert(s@ =~= render_error(*self, source@, file@));
                }
                s
            }
            _ => {
                let span = match self {
                    ParserError::UnexpectedEof => Span { start: 0, end: 0 },
                    ParserError::UnexpectedToken { span, .. } => *span,
                    ParserError::ExpectedIdentifier { span, .. } => *span,
                    ParserError::UnexpectedExprToken { span, .. } => *span,
                };
                let msg = message_string(self);
                let n = source.unicode_len();
                let (line_num, col_num, line_start) = find_line_info(source, span.start);
                proof {
                    lemma_line_info_from(source@, 0, 1, span.start as int);
                    crate::lexer::lemma_line_end(source@, line_start as int);
                }
                let le = crate::lexer::line_end_for(source, n, line_start);
                let line = source.substring_char(line_start, le);
                let mut s = "\u{1b}[31merror\u{1b}[0m: ".to_owned();
                s.append(msg.as_str());
                s.append("\n");
                s.append("  \u{1b}[34m-->\u{1b}[0m ");
                s.append(file);
                s.append(":");
                let ln = usize_to_string(line_num);
                s.append(ln.as_str());
                s.append(":");
                let cn = usize_to_string(col_num);
                s.append(cn.as_str());
                s.append("\n");
                s.append("   \u{1b}[34m|\u{1b}[0m\n");
                s.append("\u{1b}[34m");
                let pad_ln = padded_line_string(line_num);
                s.append(pad_ln.as_str());
                s.append(" |\u{1b}[0m ");
                s.append(line);
                s.append("\n");
                s.append("   \u{1b}[34m| \u{1b}[31m");
                let pad = spaces_string(col_num - 1);
                s.append(pad.as_str());
                s.append("^\u{1b}[0m\n");
                proof {
                    assert(s@ =~= render_located(
                        error_message(*self),
                        span.start as int,
                        source@,
                        file@,
                    ));
                }
                s
            }
        }
    }
}

} // verus!
