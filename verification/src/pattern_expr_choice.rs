//! Ordered choice.
use vstd::prelude::*;
use crate::diagnosis::{beyond, failure, failure_all, full_outcome, remaining_at};
use crate::error::{error_models, Error, ErrorKind};
use crate::expr::{models_of, ExprModel, FPestExpr};
use crate::expr_codegen::to_pest_list;
use crate::grammar::Grammar;
use crate::matcher::{parse, quick_parse};
use crate::pattern_outer::{quick_outcome, Ident};
use crate::rust_generator::RustGenerator;
use crate::semantics::{run, run_choice, RuleModel};
use crate::text::concat3;

verus! {

/// The quick procedure of a choice: the match of the first alternative
/// that matches. After every alternative that fails the list is cut back
/// to what it was before the choice, so that the list holds, after the
/// choice, what it held before and the labels of the alternative that
/// matched, if one did.
#[verifier::loop_isolation(false)]
pub fn quick_parse_expr_id(
    grammar: &Grammar,
    items: &Vec<FPestExpr>,
    input: &[u8],
    pos: usize,
    budget: usize,
    idents: &mut Vec<(Ident, usize)>,
) -> (r: Option<usize>)
    ensures
        quick_outcome(
            run(
                grammar@,
                ExprModel::Choice(models_of(items@)),
                input@,
                pos as nat,
                budget as nat,
            ),
            r,
            old(idents)@,
            final(idents)@,
        ),
    decreases input.len() - pos, budget, 3nat, items, 1nat,
{
    if pos > input.len() {
        return None;
    }
    let idents_len = idents.len();
    let ghost alternatives = models_of(items@);
    let mut k: usize = 0;
    while k < items.len()
        invariant
            k <= items.len(),
            idents@ == old(idents)@,
            run_choice(grammar@, alternatives, 0, input@, pos as nat, budget as nat) == run_choice(
                grammar@,
                alternatives,
                k as nat,
                input@,
                pos as nat,
                budget as nat,
            ),
        decreases items.len() - k,
    {
        proof {
            assert(decreases_to!(*items => items[k as int]));
            assert(alternatives[k as int] == items@[k as int]@);
        }
        match quick_parse(grammar, &items[k], input, pos, budget, idents) {
            Some(new_pos) => {
                return Some(new_pos);
            },
            None => {
                idents.truncate(idents_len);
                assert(idents@ =~= old(idents)@);
            },
        }
        k += 1;
    }
    None
}


/// Where a choice does not match, none of its alternatives matches.
pub proof fn lemma_choice_none(
    rules: Seq<RuleModel>,
    items: Seq<ExprModel>,
    k: nat,
    j: nat,
    input: Seq<u8>,
    pos: nat,
    budget: nat,
)
    requires
        pos <= input.len(),
        k <= j < items.len(),
        run_choice(rules, items, k, input, pos, budget) is None,
    ensures
        run(rules, items[j as int], input, pos, budget) is None,
    decreases j - k,
{
    if k < j {
        lemma_choice_none(rules, items, k + 1, j, input, pos, budget);
    }
}

/// The full procedure of a choice: the quick procedures of the
/// alternatives first; where none matches, the full procedure of every
/// alternative, for one error each, which the error of the choice holds.
#[verifier::loop_isolation(false)]
pub fn parse_expr_id(
    grammar: &Grammar,
    items: &Vec<FPestExpr>,
    input: &[u8],
    pos: usize,
    budget: usize,
    idents: &mut Vec<(Ident, usize)>,
) -> (r: Result<usize, Error>)
    ensures
        full_outcome(
            run(
                grammar@,
                ExprModel::Choice(models_of(items@)),
                input@,
                pos as nat,
                budget as nat,
            ),
            failure(
                grammar@,
                ExprModel::Choice(models_of(items@)),
                input@,
                pos as nat,
                budget as nat,
            ),
            r,
            old(idents)@,
            final(idents)@,
        ),
    decreases input.len() - pos, budget, 3nat, items, 1nat,
{
    let root = concat3("(", to_pest_list::<RustGenerator>(items, " | ").as_str(), ")");
    if pos > input.len() {
        return Err(beyond(input, pos, root.as_str()));
    }
    match quick_parse_expr_id(grammar, items, input, pos, budget, idents) {
        Some(end) => {
            return Ok(end);
        },
        None => {},
    }
    let ghost alternatives = models_of(items@);
    let idents_len = idents.len();
    let mut errors: Vec<Error> = Vec::new();
    let mut k: usize = 0;
    while k < items.len()
        invariant
            k <= items.len(),
            idents@ == old(idents)@,
            errors@.len() == k,
            forall|j: int|
                0 <= j < k ==> (#[trigger] errors@[j])@ == failure(
                    grammar@,
                    alternatives[j],
                    input@,
                    pos as nat,
                    budget as nat,
                ),
        decreases items.len() - k,
    {
        proof {
            assert(decreases_to!(*items => items[k as int]));
            assert(alternatives[k as int] == items@[k as int]@);
            lemma_choice_none(
                grammar@,
                alternatives,
                0,
                k as nat,
                input@,
                pos as nat,
                budget as nat,
            );
        }
        match parse(grammar, &items[k], input, pos, budget, idents) {
            Err(e) => {
                errors.push(e);
            },
            Ok(_) => {
                idents.truncate(idents_len);
            },
        }
        k += 1;
    }
    proof {
        assert(error_models(errors@) =~= failure_all(
            grammar@,
            alternatives,
            input@,
            pos as nat,
            budget as nat,
        ));
    }
    Err(Error::at(ErrorKind::all(errors), remaining_at(input, pos), root.as_str()))
}

} // verus!
