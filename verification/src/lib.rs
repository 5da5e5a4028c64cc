//! Front end of a minimal source-to-source compiler for a small procedural
//! language: a lexer that turns source text into spanned tokens, a
//! recursive-descent parser for a single-function grammar with `let` and
//! `return` statements and left-associative binary arithmetic, diagnostic
//! rendering with line/column positions, and a transpiler that prints the
//! resulting tree as C-like source text.
//!
//! Every stage is specified against a mathematical model of the input: the
//! lexer against a token relation over the source character sequence, the
//! parser against a recursive specification of the grammar, and the
//! transpiler and diagnostics against character-sequence renderings.

pub mod token;
pub mod lexer;
pub mod ast;
pub mod error;
pub mod decimal;
pub mod parser;
pub mod transpiler;
pub mod laws;
