//! Zero or one occurrence.
use vstd::prelude::*;
use vstd::string::*;
use crate::diagnosis::{beyond, failure, full_outcome};
use crate::error::Error;
use crate::expr::{ExprModel, FPestExpr};
use crate::expr_codegen::to_pest;
use crate::grammar::Grammar;
use crate::matcher::quick_parse;
use crate::pattern_outer::{lemma_placed_empty, quick_outcome, Ident};
use crate::rust_generator::RustGenerator;
use crate::semantics::run;

verus! {

/// The quick procedure of an optional expression: the match of the inner
/// expression where it matches; where it does not, the list is cut back
/// and the match consumes nothing.
pub fn quick_parse_expr_id(
    grammar: &Grammar,
    inner: &FPestExpr,
    input: &[u8],
    pos: usize,
    budget: usize,
    idents: &mut Vec<(Ident, usize)>,
) -> (r: Option<usize>)
    ensures
        quick_outcome(
            run(grammar@, ExprModel::Opt(Box::new(inner@)), input@, pos as nat, budget as nat),
            r,
            old(idents)@,
            final(idents)@,
        ),
    decreases input.len() - pos, budget, 3nat, inner, 1nat,
{
    if pos > input.len() {
        return None;
    }
    let idents_len = idents.len();
    match quick_parse(grammar, inner, input, pos, budget, idents) {
        Some(new_pos) => Some(new_pos),
        None => {
            idents.truncate(idents_len);
            proof {
                assert(idents@ =~= old(idents)@);
                lemma_placed_empty(old(idents)@.len());
                assert(old(idents)@ + Seq::<(Ident, usize)>::empty() =~= old(idents)@);
            }
            Some(pos)
        },
    }
}


/// The full procedure of an optional expression: as the quick one; it
/// fails only at a position past the input.
pub fn parse_expr_id(
    grammar: &Grammar,
    inner: &FPestExpr,
    input: &[u8],
    pos: usize,
    budget: usize,
    idents: &mut Vec<(Ident, usize)>,
) -> (r: Result<usize, Error>)
    ensures
        full_outcome(
            run(grammar@, ExprModel::Opt(Box::new(inner@)), input@, pos as nat, budget as nat),
            failure(
                grammar@,
                ExprModel::Opt(Box::new(inner@)),
                input@,
                pos as nat,
                budget as nat,
            ),
            r,
            old(idents)@,
            final(idents)@,
        ),
{
    match quick_parse_expr_id(grammar, inner, input, pos, budget, idents) {
        Some(end) => Ok(end),
        None => {
            let mut root = to_pest::<RustGenerator>(inner);
            root.append("?");
            Err(beyond(input, pos, root.as_str()))
        },
    }
}

} // verus!
