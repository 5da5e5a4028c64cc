//! Laws of the pipeline, stated and proved over the specification
//! functions that the executable lexer, parser and transpiler are proved
//! to implement.

use vstd::prelude::*;
use crate::token::{Span, TokenSpan};
use crate::ast::{BinaryOp, SpecExpr, SpecFunction};
use crate::lexer::{tokens_from, end_span_of};
use crate::parser::{spec_parse_function, spec_parse_expr_rest, spec_parse_primary, op_of,
    lemma_parse_expr_rest_bounds};
use crate::error::ParserError;
use crate::transpiler::{render_expr, render_function, op_text};

verus! {

// ---------------------------------------------------------------------------
// Determinism
// ---------------------------------------------------------------------------

/// Re-running the lexer and the parser on identical input yields
/// identical token spans and an identical tree: tokens, stop span and
/// parse result are pure functions of the source characters, and the
/// executable stages are proved to return exactly these functions'
/// values.
pub proof fn lemma_pipeline_deterministic(
    src: Seq<char>,
    toks1: Seq<TokenSpan>,
    toks2: Seq<TokenSpan>,
    end1: Span,
    end2: Span,
    r1: Result<SpecFunction, ParserError>,
    r2: Result<SpecFunction, ParserError>,
)
    requires
        toks1 == tokens_from(src, 0),
        toks2 == tokens_from(src, 0),
        end1 == end_span_of(src),
        end2 == end_span_of(src),
        r1 == spec_parse_function(tokens_from(src, 0), src, end_span_of(src), 0),
        r2 == spec_parse_function(tokens_from(src, 0), src, end_span_of(src), 0),
    ensures
        toks1 == toks2,
        end1 == end2,
        r1 == r2,
{
}

// ---------------------------------------------------------------------------
// Left-to-right grouping
// ---------------------------------------------------------------------------

/// Fold a chain of `(operator, right operand)` pairs onto an accumulator,
/// strictly left-to-right: each step makes the accumulator the left
/// operand of a new binary node.
pub open spec fn fold_left_chain(acc: SpecExpr, items: Seq<(BinaryOp, SpecExpr)>) -> SpecExpr
    decreases items.len(),
{
    if items.len() == 0 {
        acc
    } else {
        fold_left_chain(
            SpecExpr::Binary {
                left: Box::new(acc),
                op: items[0].0,
                right: Box::new(items[0].1),
            },
            items.drop_first(),
        )
    }
}

/// The `(operator, primary)` pairs that stand in token positions
/// `[i, j)` of an expression's continuation.
pub open spec fn op_chain(toks: Seq<TokenSpan>, src: Seq<char>, i: int, j: int) -> Seq<
    (BinaryOp, SpecExpr),
>
    decreases j - i,
{
    if i + 2 <= j {
        match op_of(toks[i].token) {
            Some(op) => match spec_parse_primary(toks, src, i + 1) {
                Ok(e) => seq![(op, e)] + op_chain(toks, src, i + 2, j),
                Err(_) => Seq::empty(),
            },
            None => Seq::empty(),
        }
    } else {
        Seq::empty()
    }
}

/// The parser folds operator chains strictly left-to-right: whenever the
/// continuation of an expression parses from `i` with accumulator `acc`,
/// the tree it yields is exactly the left fold of the `(operator,
/// primary)` pairs it consumed.
pub proof fn lemma_parser_folds_left(toks: Seq<TokenSpan>, src: Seq<char>, i: int, acc: SpecExpr)
    requires
        0 <= i <= toks.len(),
    ensures
        match spec_parse_expr_rest(toks, src, i, acc) {
            Ok((e, j)) => e == fold_left_chain(acc, op_chain(toks, src, i, j)),
            Err(_) => true,
        },
    decreases toks.len() - i,
{
    lemma_parse_expr_rest_bounds(toks, src, i, acc);
    if i < toks.len() {
        match op_of(toks[i].token) {
            Some(op) => {
                match spec_parse_primary(toks, src, i + 1) {
                    Ok(e1) => {
                        let acc2 = SpecExpr::Binary {
                            left: Box::new(acc),
                            op,
                            right: Box::new(e1),
                        };
                        lemma_parser_folds_left(toks, src, i + 2, acc2);
                        lemma_parse_expr_rest_bounds(toks, src, i + 2, acc2);
                        match spec_parse_expr_rest(toks, src, i + 2, acc2) {
                            Ok((e, j)) => {
                                assert(i + 2 <= j);
                                assert(op_chain(toks, src, i, j) == seq![(op, e1)] + op_chain(
                                    toks,
                                    src,
                                    i + 2,
                                    j,
                                ));
                                let items = op_chain(toks, src, i, j);
                                assert(items[0] == (op, e1));
                                assert(items.drop_first() =~= op_chain(toks, src, i + 2, j));
                            }
                            Err(_) => {}
                        }
                    }
                    Err(_) => {}
                }
            }
            None => {
                assert(op_chain(toks, src, i, i) == Seq::<(BinaryOp, SpecExpr)>::empty());
            }
        }
    } else {
        assert(op_chain(toks, src, i, i) == Seq::<(BinaryOp, SpecExpr)>::empty());
    }
}

/// The text obtained by wrapping an accumulated rendering in one pair of
/// parentheses per operator, strictly left-to-right.
pub open spec fn grouped_text(acc_text: Seq<char>, items: Seq<(BinaryOp, SpecExpr)>) -> Seq<char>
    decreases items.len(),
{
    if items.len() == 0 {
        acc_text
    } else {
        grouped_text(
            "("@ + acc_text + " "@ + op_text(items[0].0) + " "@ + render_expr(items[0].1) + ")"@,
            items.drop_first(),
        )
    }
}

/// The transpiler's parenthesization mirrors left-to-right folding: the
/// rendering of a left-folded chain is the accumulator's rendering
/// wrapped in one pair of parentheses per operator, from the left.
/// Together with `lemma_parser_folds_left`, this says that for any
/// sequence of literals and operators the transpiled expression's
/// grouping is exactly the parser's left-to-right fold.
pub proof fn lemma_render_mirrors_fold(acc: SpecExpr, items: Seq<(BinaryOp, SpecExpr)>)
    ensures
        render_expr(fold_left_chain(acc, items)) == grouped_text(render_expr(acc), items),
    decreases items.len(),
{
    if items.len() > 0 {
        let acc2 = SpecExpr::Binary {
            left: Box::new(acc),
            op: items[0].0,
            right: Box::new(items[0].1),
        };
        assert(render_expr(acc2) == "("@ + render_expr(acc) + " "@ + op_text(items[0].0) + " "@
            + render_expr(items[0].1) + ")"@);
        lemma_render_mirrors_fold(acc2, items.drop_first());
    }
}

/// Round-trip identity on grouping: for any token sequence whose
/// expression parses, the rendered text of the resulting tree is the
/// rendering of its first primary wrapped in one pair of parentheses per
/// following operator, strictly left-to-right — the transpiled
/// parenthesization exactly mirrors the parser's left-to-right fold.
pub proof fn lemma_grouping_round_trip(toks: Seq<TokenSpan>, src: Seq<char>, i: int)
    requires
        0 <= i <= toks.len(),
    ensures
        match (spec_parse_primary(toks, src, i), crate::parser::spec_parse_expr(toks, src, i)) {
            (Ok(p), Ok((e, j))) => render_expr(e) == grouped_text(
                render_expr(p),
                op_chain(toks, src, i + 1, j),
            ),
            _ => true,
        },
{
    match spec_parse_primary(toks, src, i) {
        Ok(p) => {
            lemma_parser_folds_left(toks, src, i + 1, p);
            match spec_parse_expr_rest(toks, src, i + 1, p) {
                Ok((e, j)) => {
                    lemma_render_mirrors_fold(p, op_chain(toks, src, i + 1, j));
                }
                Err(_) => {}
            }
        }
        Err(_) => {}
    }
}

} // verus!
