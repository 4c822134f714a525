//! Negative lookahead.
use vstd::prelude::*;
use crate::diagnosis::{beyond, failure, full_outcome, remaining_at};
use crate::error::{Error, ErrorKind};
use crate::expr::{ExprModel, FPestExpr};
use crate::expr_codegen::to_pest;
use crate::grammar::Grammar;
use crate::matcher::quick_parse;
use crate::pattern_outer::{lemma_placed_empty, quick_outcome, Ident};
use crate::rust_generator::RustGenerator;
use crate::semantics::run;
use crate::text::concat2;

verus! {

/// The quick procedure of a negative lookahead: it matches, consuming
/// nothing, where the inner expression does not match. Whatever the inner
/// expression appended to the list is removed again.
pub fn quick_parse_expr_id(
    grammar: &Grammar,
    inner: &FPestExpr,
    input: &[u8],
    pos: usize,
    budget: usize,
    idents: &mut Vec<(Ident, usize)>,
) -> (r: Option<usize>)
    ensures
        quick_outcome(
            run(
                grammar@,
                ExprModel::NegPred(Box::new(inner@)),
                input@,
                pos as nat,
                budget as nat,
            ),
            r,
            old(idents)@,
            final(idents)@,
        ),
    decreases input.len() - pos, budget, 3nat, inner, 1nat,
{
    if pos > input.len() {
        return None;
    }
    let idents_len = idents.len();
    let found = quick_parse(grammar, inner, input, pos, budget, idents);
    idents.truncate(idents_len);
    proof {
        assert(idents@ =~= old(idents)@);
        lemma_placed_empty(old(idents)@.len());
        assert(old(idents)@ + Seq::<(Ident, usize)>::empty() =~= old(idents)@);
    }
    if found.is_none() {
        Some(pos)
    } else {
        None
    }
}


/// The full procedure of a negative lookahead: as the quick one, with an
/// error that names the inner expression where that expression matches.
pub fn parse_expr_id(
    grammar: &Grammar,
    inner: &FPestExpr,
    input: &[u8],
    pos: usize,
    budget: usize,
    idents: &mut Vec<(Ident, usize)>,
) -> (r: Result<usize, Error>)
    ensures
        full_outcome(
            run(
                grammar@,
                ExprModel::NegPred(Box::new(inner@)),
                input@,
                pos as nat,
                budget as nat,
            ),
            failure(
                grammar@,
                ExprModel::NegPred(Box::new(inner@)),
                input@,
                pos as nat,
                budget as nat,
            ),
            r,
            old(idents)@,
            final(idents)@,
        ),
{
    match quick_parse_expr_id(grammar, inner, input, pos, budget, idents) {
        Some(end) => Ok(end),
        None => {
            let what = to_pest::<RustGenerator>(inner);
            let root = concat2("!", what.as_str());
            if pos > input.len() {
                Err(beyond(input, pos, root.as_str()))
            } else {
                Err(
                    Error::at(
                        ErrorKind::neg_pred_failed(what.as_str()),
                        remaining_at(input, pos),
                        root.as_str(),
                    ),
                )
            }
        },
    }
}

} // verus!
