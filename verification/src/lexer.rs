//! The lexer: a greedy, longest-match scanner over the source characters.
//!
//! The specification side (`tokens_from` and its helpers) defines, as pure
//! functions of the character sequence, which token begins at which
//! position; the executable `lex` is proved to produce exactly that token
//! sequence. Whitespace, `//` line comments and non-nesting `/* ... */`
//! block comments are skipped. A position where no token pattern matches
//! ends the stream, indistinguishably from end of input; the span where
//! scanning stopped is reported alongside the tokens.

use vstd::prelude::*;
use crate::token::{Span, Token, TokenSpan};

verus! {

// ---------------------------------------------------------------------------
// Character classes
// ---------------------------------------------------------------------------

/// Characters skipped as whitespace: space, tab, newline, form feed.
pub open spec fn is_skip_ws(c: char) -> bool {
    c == ' ' || c == '\t' || c == '\n' || c == '\u{c}'
}

pub open spec fn is_digit_char(c: char) -> bool {
    '0' <= c && c <= '9'
}

pub open spec fn is_ident_start_char(c: char) -> bool {
    ('a' <= c && c <= 'z') || ('A' <= c && c <= 'Z') || c == '_'
}

pub open spec fn is_ident_char(c: char) -> bool {
    is_ident_start_char(c) || is_digit_char(c)
}

// ---------------------------------------------------------------------------
// Scanning helpers (specification)
// ---------------------------------------------------------------------------

/// End of the run of identifier characters starting at `pos`.
pub open spec fn ident_end(s: Seq<char>, pos: int) -> int
    decreases s.len() - pos,
{
    if pos < s.len() && is_ident_char(s[pos]) {
        ident_end(s, pos + 1)
    } else {
        pos
    }
}

/// End of the run of decimal digits starting at `pos`.
pub open spec fn digit_end(s: Seq<char>, pos: int) -> int
    decreases s.len() - pos,
{
    if pos < s.len() && is_digit_char(s[pos]) {
        digit_end(s, pos + 1)
    } else {
        pos
    }
}

/// Position of the first newline at or after `pos`, or the end of the text.
pub open spec fn line_end(s: Seq<char>, pos: int) -> int
    decreases s.len() - pos,
{
    if pos < s.len() && s[pos] != '\n' {
        line_end(s, pos + 1)
    } else {
        pos
    }
}

/// Where a block comment opened just before `pos` closes: the position one
/// past the terminating `/`, or `None` if the comment pattern never
/// completes. `after_star` records whether the previous character was a
/// `*` that may begin the closing `*/`; a `*` seen in that state does not
/// itself arm the closing pair again, mirroring the non-nesting comment
/// pattern `/*([^*]|*[^/])**/`.
pub open spec fn block_comment_end(s: Seq<char>, pos: int, after_star: bool) -> Option<int>
    decreases s.len() - pos,
{
    if pos >= s.len() {
        None
    } else if after_star && s[pos] == '/' {
        Some(pos + 1)
    } else {
        block_comment_end(s, pos + 1, !after_star && s[pos] == '*')
    }
}

/// Where a string literal opened just before `pos` closes: the position one
/// past the closing quote. A backslash escapes the next character, except
/// a newline, which makes the literal fail to match.
pub open spec fn string_lit_end(s: Seq<char>, pos: int, after_backslash: bool) -> Option<int>
    decreases s.len() - pos,
{
    if pos >= s.len() {
        None
    } else if after_backslash {
        if s[pos] == '\n' {
            None
        } else {
            string_lit_end(s, pos + 1, false)
        }
    } else if s[pos] == '"' {
        Some(pos + 1)
    } else if s[pos] == '\\' {
        string_lit_end(s, pos + 1, true)
    } else {
        string_lit_end(s, pos + 1, false)
    }
}

// ---------------------------------------------------------------------------
// Bounds lemmas for the scanning helpers
// ---------------------------------------------------------------------------

pub proof fn lemma_ident_end(s: Seq<char>, pos: int)
    requires
        0 <= pos <= s.len(),
    ensures
        pos <= ident_end(s, pos) <= s.len(),
    decreases s.len() - pos,
{
    if pos < s.len() && is_ident_char(s[pos]) {
        lemma_ident_end(s, pos + 1);
    }
}

pub proof fn lemma_digit_end(s: Seq<char>, pos: int)
    requires
        0 <= pos <= s.len(),
    ensures
        pos <= digit_end(s, pos) <= s.len(),
        forall|k: int| pos <= k < digit_end(s, pos) ==> is_digit_char(s[k]),
    decreases s.len() - pos,
{
    if pos < s.len() && is_digit_char(s[pos]) {
        lemma_digit_end(s, pos + 1);
    }
}

pub proof fn lemma_line_end(s: Seq<char>, pos: int)
    requires
        0 <= pos <= s.len(),
    ensures
        pos <= line_end(s, pos) <= s.len(),
    decreases s.len() - pos,
{
    if pos < s.len() && s[pos] != '\n' {
        lemma_line_end(s, pos + 1);
    }
}

pub proof fn lemma_block_comment_end(s: Seq<char>, pos: int, after_star: bool)
    requires
        0 <= pos <= s.len(),
    ensures
        match block_comment_end(s, pos, after_star) {
            Some(e) => pos < e <= s.len(),
            None => true,
        },
    decreases s.len() - pos,
{
    if pos < s.len() && !(after_star && s[pos] == '/') {
        lemma_block_comment_end(s, pos + 1, !after_star && s[pos] == '*');
    }
}

pub proof fn lemma_string_lit_end(s: Seq<char>, pos: int, after_backslash: bool)
    requires
        0 <= pos <= s.len(),
    ensures
        match string_lit_end(s, pos, after_backslash) {
            Some(e) => pos < e <= s.len(),
            None => true,
        },
    decreases s.len() - pos,
{
    if pos < s.len() {
        if after_backslash {
            if s[pos] != '\n' {
                lemma_string_lit_end(s, pos + 1, false);
            }
        } else if s[pos] == '"' {
        } else if s[pos] == '\\' {
            lemma_string_lit_end(s, pos + 1, true);
        } else {
            lemma_string_lit_end(s, pos + 1, false);
        }
    }
}

// ---------------------------------------------------------------------------
// Skipping whitespace and comments
// ---------------------------------------------------------------------------

/// Position of the first character after `pos` that does not belong to
/// whitespace, a line comment, or a completed block comment. A `/*` whose
/// comment pattern never completes is not skipped: scanning then resumes
/// at the `/`, which matches as a `Slash` token.
pub open spec fn skip_end(s: Seq<char>, pos: int) -> int
    decreases s.len() - pos,
        when 0 <= pos <= s.len()
{
    if pos < s.len() && is_skip_ws(s[pos]) {
        skip_end(s, pos + 1)
    } else if pos + 1 < s.len() && s[pos] == '/' && s[pos + 1] == '/' {
        proof {
            lemma_line_end(s, pos + 2);
        }
        skip_end(s, line_end(s, pos + 2))
    } else if pos + 1 < s.len() && s[pos] == '/' && s[pos + 1] == '*' {
        match block_comment_end(s, pos + 2, false) {
            Some(e) => {
                proof {
                    lemma_block_comment_end(s, pos + 2, false);
                }
                skip_end(s, e)
            }
            None => pos,
        }
    } else {
        pos
    }
}

pub proof fn lemma_skip_end(s: Seq<char>, pos: int)
    requires
        0 <= pos <= s.len(),
    ensures
        pos <= skip_end(s, pos) <= s.len(),
    decreases s.len() - pos,
{
    if pos < s.len() && is_skip_ws(s[pos]) {
        lemma_skip_end(s, pos + 1);
    } else if pos + 1 < s.len() && s[pos] == '/' && s[pos + 1] == '/' {
        lemma_line_end(s, pos + 2);
        lemma_skip_end(s, line_end(s, pos + 2));
    } else if pos + 1 < s.len() && s[pos] == '/' && s[pos + 1] == '*' {
        match block_comment_end(s, pos + 2, false) {
            Some(e) => {
                lemma_block_comment_end(s, pos + 2, false);
                lemma_skip_end(s, e);
            }
            None => {}
        }
    }
}

// ---------------------------------------------------------------------------
// Token matching (specification)
// ---------------------------------------------------------------------------

/// The keyword named by exactly the text `t`, if any.
pub open spec fn keyword_of(t: Seq<char>) -> Option<Token> {
    if t == seq!['f', 'n'] {
        Some(Token::Fn)
    } else if t == seq!['r', 'e', 't', 'u', 'r', 'n'] {
        Some(Token::Return)
    } else if t == seq!['l', 'e', 't'] {
        Some(Token::Let)
    } else if t == seq!['f', 'o', 'r'] {
        Some(Token::For)
    } else if t == seq!['i', 'n'] {
        Some(Token::In)
    } else if t == seq!['w', 'h', 'i', 'l', 'e'] {
        Some(Token::While)
    } else if t == seq!['b', 'r', 'e', 'a', 'k'] {
        Some(Token::Break)
    } else if t == seq!['c', 'o', 'n', 't', 'i', 'n', 'u', 'e'] {
        Some(Token::Continue)
    } else if t == seq!['i', 'f'] {
        Some(Token::If)
    } else if t == seq!['e', 'l', 's', 'e'] {
        Some(Token::Else)
    } else {
        None
    }
}

/// The longest token match starting at `pos` (which must lie before the
/// end of `s` and after any skipped text), as the token and the position
/// one past its last character. `None` means no pattern matches there.
pub open spec fn match_at(s: Seq<char>, pos: int) -> Option<(Token, int)> {
    let c = s[pos];
    if is_ident_start_char(c) {
        let e = ident_end(s, pos + 1);
        match keyword_of(s.subrange(pos, e)) {
            Some(k) => Some((k, e)),
            None => Some((Token::Identifier, e)),
        }
    } else if is_digit_char(c) {
        Some((Token::Number, digit_end(s, pos + 1)))
    } else if c == '"' {
        match string_lit_end(s, pos + 1, false) {
            Some(e) => Some((Token::Str, e)),
            None => None,
        }
    } else if c == '<' {
        if pos + 1 < s.len() && s[pos + 1] == '=' {
            Some((Token::LessEqual, pos + 2))
        } else if pos + 1 < s.len() && s[pos + 1] == '<' {
            Some((Token::ShiftLeft, pos + 2))
        } else {
            Some((Token::Less, pos + 1))
        }
    } else if c == '>' {
        if pos + 1 < s.len() && s[pos + 1] == '=' {
            Some((Token::GreaterEqual, pos + 2))
        } else if pos + 1 < s.len() && s[pos + 1] == '>' {
            Some((Token::ShiftRight, pos + 2))
        } else {
            Some((Token::Greater, pos + 1))
        }
    } else if c == '=' {
        if pos + 1 < s.len() && s[pos + 1] == '=' {
            Some((Token::DoubleEqual, pos + 2))
        } else {
            Some((Token::Equal, pos + 1))
        }
    } else if c == '!' {
        if pos + 1 < s.len() && s[pos + 1] == '=' {
            Some((Token::NotEqual, pos + 2))
        } else {
            Some((Token::Not, pos + 1))
        }
    } else if c == '&' {
        if pos + 1 < s.len() && s[pos + 1] == '&' {
            Some((Token::AndAnd, pos + 2))
        } else {
            Some((Token::And, pos + 1))
        }
    } else if c == '|' {
        if pos + 1 < s.len() && s[pos + 1] == '|' {
            Some((Token::OrOr, pos + 2))
        } else {
            Some((Token::Or, pos + 1))
        }
    } else if c == ':' {
        if pos + 1 < s.len() && s[pos + 1] == ':' {
            Some((Token::DoubleColon, pos + 2))
        } else {
            Some((Token::Colon, pos + 1))
        }
    } else if c == '+' {
        Some((Token::Plus, pos + 1))
    } else if c == '-' {
        Some((Token::Minus, pos + 1))
    } else if c == '*' {
        Some((Token::Star, pos + 1))
    } else if c == '/' {
        Some((Token::Slash, pos + 1))
    } else if c == '%' {
        Some((Token::Percent, pos + 1))
    } else if c == '^' {
        Some((Token::Caret, pos + 1))
    } else if c == '~' {
        Some((Token::Tilde, pos + 1))
    } else if c == ',' {
        Some((Token::Comma, pos + 1))
    } else if c == ';' {
        Some((Token::Semicolon, pos + 1))
    } else if c == '.' {
        Some((Token::Dot, pos + 1))
    } else if c == '(' {
        Some((Token::LeftParen, pos + 1))
    } else if c == ')' {
        Some((Token::RightParen, pos + 1))
    } else if c == '{' {
        Some((Token::LeftBrace, pos + 1))
    } else if c == '}' {
        Some((Token::RightBrace, pos + 1))
    } else {
        None
    }
}

pub proof fn lemma_match_at(s: Seq<char>, pos: int)
    requires
        0 <= pos < s.len(),
    ensures
        match match_at(s, pos) {
            Some((t, e)) => pos < e <= s.len(),
            None => true,
        },
{
    lemma_ident_end(s, pos + 1);
    lemma_digit_end(s, pos + 1);
    lemma_string_lit_end(s, pos + 1, false);
}

// ---------------------------------------------------------------------------
// The token stream (specification)
// ---------------------------------------------------------------------------

/// The sequence of spanned tokens produced from position `pos` onwards:
/// skip, then match, until the end of the text or a position where no
/// pattern matches.
pub open spec fn tokens_from(s: Seq<char>, pos: int) -> Seq<TokenSpan>
    decreases s.len() - pos,
        when 0 <= pos <= s.len()
{
    let p = skip_end(s, pos);
    proof {
        lemma_skip_end(s, pos);
    }
    if p >= s.len() {
        Seq::empty()
    } else {
        match match_at(s, p) {
            Some((t, e)) => {
                proof {
                    lemma_match_at(s, p);
                }
                seq![
                    TokenSpan { token: t, span: Span { start: p as usize, end: e as usize } },
                ] + tokens_from(s, e)
            }
            None => Seq::empty(),
        }
    }
}

/// The position where scanning stops: the end of the text, or the first
/// skipped-past position where no token pattern matches.
pub open spec fn lex_stop(s: Seq<char>, pos: int) -> int
    decreases s.len() - pos,
        when 0 <= pos <= s.len()
{
    let p = skip_end(s, pos);
    proof {
        lemma_skip_end(s, pos);
    }
    if p >= s.len() {
        p
    } else {
        match match_at(s, p) {
            Some((t, e)) => {
                proof {
                    lemma_match_at(s, p);
                }
                lex_stop(s, e)
            }
            None => p,
        }
    }
}

/// The span reported for the position where scanning stopped: an empty
/// span at the end of the text, or the single unmatched character.
pub open spec fn end_span_of(s: Seq<char>) -> Span {
    let p = lex_stop(s, 0);
    if p >= s.len() {
        Span { start: s.len() as usize, end: s.len() as usize }
    } else {
        Span { start: p as usize, end: (p + 1) as usize }
    }
}

// ---------------------------------------------------------------------------
// Executable character classes
// ---------------------------------------------------------------------------

fn skip_ws_char(c: char) -> (b: bool)
    ensures
        b == is_skip_ws(c),
{
    c == ' ' || c == '\t' || c == '\n' || c == '\u{c}'
}

fn digit_char(c: char) -> (b: bool)
    ensures
        b == is_digit_char(c),
{
    '0' <= c && c <= '9'
}

fn ident_start_char(c: char) -> (b: bool)
    ensures
        b == is_ident_start_char(c),
{
    ('a' <= c && c <= 'z') || ('A' <= c && c <= 'Z') || c == '_'
}

fn ident_char(c: char) -> (b: bool)
    ensures
        b == is_ident_char(c),
{
    ident_start_char(c) || digit_char(c)
}

// ---------------------------------------------------------------------------
// Executable scanners
// ---------------------------------------------------------------------------

fn ident_end_exec(s: &str, n: usize, pos: usize) -> (r: usize)
    requires
        n == s@.len(),
        pos <= n,
    ensures
        r as int == ident_end(s@, pos as int),
        pos <= r <= n,
    decreases n - pos,
{
    if pos < n && ident_char(s.get_char(pos)) {
        ident_end_exec(s, n, pos + 1)
    } else {
        pos
    }
}

fn digit_end_exec(s: &str, n: usize, pos: usize) -> (r: usize)
    requires
        n == s@.len(),
        pos <= n,
    ensures
        r as int == digit_end(s@, pos as int),
        pos <= r <= n,
    decreases n - pos,
{
    if pos < n && digit_char(s.get_char(pos)) {
        digit_end_exec(s, n, pos + 1)
    } else {
        pos
    }
}

/// Executable counterpart of `line_end`: the first newline at or after
/// `pos`, or the end of the text.
pub fn line_end_for(s: &str, n: usize, pos: usize) -> (r: usize)
    requires
        n == s@.len(),
        pos <= n,
    ensures
        r as int == line_end(s@, pos as int),
        pos <= r <= n,
    decreases n - pos,
{
    if pos < n && s.get_char(pos) != '\n' {
        line_end_for(s, n, pos + 1)
    } else {
        pos
    }
}

fn block_comment_end_exec(s: &str, n: usize, pos: usize, after_star: bool) -> (r: Option<usize>)
    requires
        n == s@.len(),
        pos <= n,
    ensures
        match r {
            Some(e) => block_comment_end(s@, pos as int, after_star) == Some(e as int) && pos < e
                <= n,
            None => block_comment_end(s@, pos as int, after_star) is None,
        },
    decreases n - pos,
{
    if pos >= n {
        None
    } else {
        let c = s.get_char(pos);
        if after_star && c == '/' {
            Some(pos + 1)
        } else {
            block_comment_end_exec(s, n, pos + 1, !after_star && c == '*')
        }
    }
}

fn string_lit_end_exec(s: &str, n: usize, pos: usize, after_backslash: bool) -> (r: Option<usize>)
    requires
        n == s@.len(),
        pos <= n,
    ensures
        match r {
            Some(e) => string_lit_end(s@, pos as int, after_backslash) == Some(e as int) && pos < e
                <= n,
            None => string_lit_end(s@, pos as int, after_backslash) is None,
        },
    decreases n - pos,
{
    if pos >= n {
        None
    } else {
        let c = s.get_char(pos);
        if after_backslash {
            if c == '\n' {
                None
            } else {
                string_lit_end_exec(s, n, pos + 1, false)
            }
        } else if c == '"' {
            Some(pos + 1)
        } else if c == '\\' {
            string_lit_end_exec(s, n, pos + 1, true)
        } else {
            string_lit_end_exec(s, n, pos + 1, false)
        }
    }
}

fn skip_exec(s: &str, n: usize, pos: usize) -> (r: usize)
    requires
        n == s@.len(),
        pos <= n,
    ensures
        r as int == skip_end(s@, pos as int),
        pos <= r <= n,
    decreases n - pos,
{
    proof {
        lemma_skip_end(s@, pos as int);
    }
    if pos < n {
        let c = s.get_char(pos);
        if skip_ws_char(c) {
            skip_exec(s, n, pos + 1)
        } else if c == '/' && pos + 1 < n {
            let c1 = s.get_char(pos + 1);
            if c1 == '/' {
                let e = line_end_for(s, n, pos + 2);
                skip_exec(s, n, e)
            } else if c1 == '*' {
                match block_comment_end_exec(s, n, pos + 2, false) {
                    Some(e) => skip_exec(s, n, e),
                    None => pos,
                }
            } else {
                pos
            }
        } else {
            pos
        }
    } else {
        pos
    }
}

/// A keyword token if the text at `[start, end)` is exactly a keyword.
fn keyword_token(s: &str, start: usize, end: usize) -> (r: Option<Token>)
    requires
        start <= end <= s@.len(),
    ensures
        r == keyword_of(s@.subrange(start as int, end as int)),
{
    let ghost t = s@.subrange(start as int, end as int);
    let len = end - start;
    proof {
        assert(t.len() == end - start);
        assert(forall|k: int| 0 <= k < t.len() ==> t[k] == s@[start + k]);
    }
    if len == 2 {
        let c0 = s.get_char(start);
        let c1 = s.get_char(start + 1);
        assert(t[0] == c0 && t[1] == c1);
        if c0 == 'f' && c1 == 'n' {
            assert(t =~= seq!['f', 'n']);
            Some(Token::Fn)
        } else if c0 == 'i' && c1 == 'n' {
            assert(t =~= seq!['i', 'n']);
            Some(Token::In)
        } else if c0 == 'i' && c1 == 'f' {
            assert(t =~= seq!['i', 'f']);
            Some(Token::If)
        } else {
            None
        }
    } else if len == 3 {
        let c0 = s.get_char(start);
        let c1 = s.get_char(start + 1);
        let c2 = s.get_char(start + 2);
        assert(t[0] == c0 && t[1] == c1 && t[2] == c2);
        if c0 == 'l' && c1 == 'e' && c2 == 't' {
            assert(t =~= seq!['l', 'e', 't']);
            Some(Token::Let)
        } else if c0 == 'f' && c1 == 'o' && c2 == 'r' {
            assert(t =~= seq!['f', 'o', 'r']);
            Some(Token::For)
        } else {
            None
        }
    } else if len == 4 {
        let c0 = s.get_char(start);
        let c1 = s.get_char(start + 1);
        let c2 = s.get_char(start + 2);
        let c3 = s.get_char(start + 3);
        assert(t[0] == c0 && t[1] == c1 && t[2] == c2 && t[3] == c3);
        if c0 == 'e' && c1 == 'l' && c2 == 's' && c3 == 'e' {
            assert(t =~= seq!['e', 'l', 's', 'e']);
            Some(Token::Else)
        } else {
            None
        }
    } else if len == 5 {
        let c0 = s.get_char(start);
        let c1 = s.get_char(start + 1);
        let c2 = s.get_char(start + 2);
        let c3 = s.get_char(start + 3);
        let c4 = s.get_char(start + 4);
        assert(t[0] == c0 && t[1] == c1 && t[2] == c2 && t[3] == c3 && t[4] == c4);
        if c0 == 'w' && c1 == 'h' && c2 == 'i' && c3 == 'l' && c4 == 'e' {
            assert(t =~= seq!['w', 'h', 'i', 'l', 'e']);
            Some(Token::While)
        } else if c0 == 'b' && c1 == 'r' && c2 == 'e' && c3 == 'a' && c4 == 'k' {
            assert(t =~= seq!['b', 'r', 'e', 'a', 'k']);
            Some(Token::Break)
        } else {
            None
        }
    } else if len == 6 {
        let c0 = s.get_char(start);
        let c1 = s.get_char(start + 1);
        let c2 = s.get_char(start + 2);
        let c3 = s.get_char(start + 3);
        let c4 = s.get_char(start + 4);
        let c5 = s.get_char(start + 5);
        assert(t[0] == c0 && t[1] == c1 && t[2] == c2 && t[3] == c3 && t[4] == c4 && t[5] == c5);
        if c0 == 'r' && c1 == 'e' && c2 == 't' && c3 == 'u' && c4 == 'r' && c5 == 'n' {
            assert(t =~= seq!['r', 'e', 't', 'u', 'r', 'n']);
            Some(Token::Return)
        } else {
            None
        }
    } else if len == 8 {
        let c0 = s.get_char(start);
        let c1 = s.get_char(start + 1);
        let c2 = s.get_char(start + 2);
        let c3 = s.get_char(start + 3);
        let c4 = s.get_char(start + 4);
        let c5 = s.get_char(start + 5);
        let c6 = s.get_char(start + 6);
        let c7 = s.get_char(start + 7);
        assert(t[0] == c0 && t[1] == c1 && t[2] == c2 && t[3] == c3 && t[4] == c4 && t[5] == c5
            && t[6] == c6 && t[7] == c7);
        if c0 == 'c' && c1 == 'o' && c2 == 'n' && c3 == 't' && c4 == 'i' && c5 == 'n' && c6 == 'u'
            && c7 == 'e' {
            assert(t =~= seq!['c', 'o', 'n', 't', 'i', 'n', 'u', 'e']);
            Some(Token::Continue)
        } else {
            None
        }
    } else {
        None
    }
}

/// The longest token match starting at `pos`, which must lie before the
/// end of the text.
fn match_token_at(s: &str, n: usize, pos: usize) -> (r: Option<(Token, usize)>)
    requires
        n == s@.len(),
        pos < n,
    ensures
        match r {
            Some((t, e)) => match_at(s@, pos as int) == Some((t, e as int)) && pos < e <= n,
            None => match_at(s@, pos as int) is None,
        },
{
    proof {
        lemma_match_at(s@, pos as int);
    }
    let c = s.get_char(pos);
    if ident_start_char(c) {
        let e = ident_end_exec(s, n, pos + 1);
        match keyword_token(s, pos, e) {
            Some(k) => Some((k, e)),
            None => Some((Token::Identifier, e)),
        }
    } else if digit_char(c) {
        Some((Token::Number, digit_end_exec(s, n, pos + 1)))
    } else if c == '"' {
        match string_lit_end_exec(s, n, pos + 1, false) {
            Some(e) => Some((Token::Str, e)),
            None => None,
        }
    } else if c == '<' {
        if pos + 1 < n && s.get_char(pos + 1) == '=' {
            Some((Token::LessEqual, pos + 2))
        } else if pos + 1 < n && s.get_char(pos + 1) == '<' {
            Some((Token::ShiftLeft, pos + 2))
        } else {
            Some((Token::Less, pos + 1))
        }
    } else if c == '>' {
        if pos + 1 < n && s.get_char(pos + 1) == '=' {
            Some((Token::GreaterEqual, pos + 2))
        } else if pos + 1 < n && s.get_char(pos + 1) == '>' {
            Some((Token::ShiftRight, pos + 2))
        } else {
            Some((Token::Greater, pos + 1))
        }
    } else if c == '=' {
        if pos + 1 < n && s.get_char(pos + 1) == '=' {
            Some((Token::DoubleEqual, pos + 2))
        } else {
            Some((Token::Equal, pos + 1))
        }
    } else if c == '!' {
        if pos + 1 < n && s.get_char(pos + 1) == '=' {
            Some((Token::NotEqual, pos + 2))
        } else {
            Some((Token::Not, pos + 1))
        }
    } else if c == '&' {
        if pos + 1 < n && s.get_char(pos + 1) == '&' {
            Some((Token::AndAnd, pos + 2))
        } else {
            Some((Token::And, pos + 1))
        }
    } else if c == '|' {
        if pos + 1 < n && s.get_char(pos + 1) == '|' {
            Some((Token::OrOr, pos + 2))
        } else {
            Some((Token::Or, pos + 1))
        }
    } else if c == ':' {
        if pos + 1 < n && s.get_char(pos + 1) == ':' {
            Some((Token::DoubleColon, pos + 2))
        } else {
            Some((Token::Colon, pos + 1))
        }
    } else if c == '+' {
        Some((Token::Plus, pos + 1))
    } else if c == '-' {
        Some((Token::Minus, pos + 1))
    } else if c == '*' {
        Some((Token::Star, pos + 1))
    } else if c == '/' {
        Some((Token::Slash, pos + 1))
    } else if c == '%' {
        Some((Token::Percent, pos + 1))
    } else if c == '^' {
        Some((Token::Caret, pos + 1))
    } else if c == '~' {
        Some((Token::Tilde, pos + 1))
    } else if c == ',' {
        Some((Token::Comma, pos + 1))
    } else if c == ';' {
        Some((Token::Semicolon, pos + 1))
    } else if c == '.' {
        Some((Token::Dot, pos + 1))
    } else if c == '(' {
        Some((Token::LeftParen, pos + 1))
    } else if c == ')' {
        Some((Token::RightParen, pos + 1))
    } else if c == '{' {
        Some((Token::LeftBrace, pos + 1))
    } else if c == '}' {
        Some((Token::RightBrace, pos + 1))
    } else {
        None
    }
}

// ---------------------------------------------------------------------------
// The lexer entry point
// ---------------------------------------------------------------------------

/// Scan the whole source text into its token sequence, together with the
/// span at which scanning stopped: an empty span at the end of the text,
/// or the single character where no token pattern matched.
pub fn lex(s: &str) -> (r: (Vec<TokenSpan>, Span))
    ensures
        r.0@ == tokens_from(s@, 0),
        r.1 == end_span_of(s@),
        s@.len() <= usize::MAX,
{
    let n = s.unicode_len();
    let mut toks: Vec<TokenSpan> = Vec::new();
    let mut pos: usize = 0;
    proof {
        assert(toks@ + tokens_from(s@, 0) =~= tokens_from(s@, 0));
    }
    loop
        invariant
            n == s@.len(),
            pos <= n,
            tokens_from(s@, 0) =~= toks@ + tokens_from(s@, pos as int),
            lex_stop(s@, 0) == lex_stop(s@, pos as int),
        decreases n - pos,
    {
        let p = skip_exec(s, n, pos);
        if p >= n {
            proof {
                assert(tokens_from(s@, pos as int) =~= Seq::<TokenSpan>::empty());
                assert(tokens_from(s@, 0) =~= toks@);
                assert(lex_stop(s@, pos as int) == p as int);
            }
            return (toks, Span { start: n, end: n });
        }
        match match_token_at(s, n, p) {
            Some((t, e)) => {
                let ts = TokenSpan { token: t, span: Span { start: p, end: e } };
                proof {
                    assert(tokens_from(s@, pos as int) =~= seq![ts] + tokens_from(s@, e as int));
                    assert(toks@ + tokens_from(s@, pos as int) =~= (toks@ + seq![ts])
                        + tokens_from(s@, e as int));
                    assert(lex_stop(s@, pos as int) == lex_stop(s@, e as int));
                }
                toks.push(ts);
                pos = e;
            }
            None => {
                proof {
                    assert(tokens_from(s@, pos as int) =~= Seq::<TokenSpan>::empty());
                    assert(tokens_from(s@, 0) =~= toks@);
                    assert(lex_stop(s@, pos as int) == p as int);
                }
                return (toks, Span { start: p, end: p + 1 });
            }
        }
    }
}

} // verus!
