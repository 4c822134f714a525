//! Runs the matching procedures of an expression on an input.
use vstd::prelude::*;
use crate::diagnosis::{beyond, failure, failure_body, full_outcome, remaining_at};
use crate::error::{Error, ErrorKind};
use crate::expr::{lemma_choice_model, lemma_sequence_model, ExprModel, FPestExpr};
use crate::expr_codegen::to_pest;
use crate::forest::lemma_run_rule_sound;
use crate::grammar::Grammar;
use crate::pattern_outer::{
    lemma_placed_concat,
    lemma_placed_empty,
    placed,
    quick_outcome,
    Ident,
};
use crate::rust_generator::RustGenerator;
use crate::semantics::{run, run_rule, skip_ws, Builtin, Label};

verus! {

/// The quick procedure of a rule: that of a silent rule or that of a rule
/// that leaves a label, as the rule says.
pub fn quick_parse_rule(
    grammar: &Grammar,
    rule: usize,
    input: &[u8],
    pos: usize,
    budget: usize,
    idents: &mut Vec<(Ident, usize)>,
) -> (r: Option<usize>)
    ensures
        quick_outcome(
            run_rule(grammar@, rule as nat, input@, pos as nat, budget as nat),
            r,
            old(idents)@,
            final(idents)@,
        ),
    decreases input.len() - pos, budget, 1nat,
{
    if rule >= grammar.len() {
        return None;
    }
    if grammar.rule(rule).silent {
        crate::pattern_rule_silent::quick_parse_RuleVariant(
            grammar,
            rule,
            input,
            pos,
            budget,
            idents,
        )
    } else {
        crate::pattern_rule::quick_parse_RuleVariant(grammar, rule, input, pos, budget, idents)
    }
}

/// Skips whitespace: matches the whitespace rule as often as it matches
/// and consumes something, and returns the position after. Where the
/// grammar has no such rule nothing is skipped.
#[verifier::loop_isolation(false)]
pub fn quick_skip_ws(
    grammar: &Grammar,
    input: &[u8],
    pos: usize,
    budget: usize,
    idents: &mut Vec<(Ident, usize)>,
) -> (r: usize)
    ensures
        r == skip_ws(grammar@, input@, pos as nat, budget as nat).pos,
        final(idents)@ == old(idents)@ + placed(
            skip_ws(grammar@, input@, pos as nat, budget as nat).labels,
            old(idents)@.len(),
        ),
    decreases input.len() - pos, budget, 2nat,
{
    proof {
        lemma_placed_empty(old(idents)@.len());
        assert(old(idents)@ + Seq::<(Ident, usize)>::empty() =~= old(idents)@);
    }
    let rule = match grammar.whitespace() {
        Some(k) => k,
        None => {
            return pos;
        },
    };
    if pos > input.len() {
        return pos;
    }
    let ghost mut done: Seq<Label> = Seq::empty();
    let ghost target = skip_ws(grammar@, input@, pos as nat, budget as nat);
    let mut cur: usize = pos;
    let mut left: usize = budget;
    proof {
        assert(Seq::<Label>::empty() + target.labels =~= target.labels);
    }
    loop
        invariant
            pos <= cur <= input.len(),
            cur == pos ==> left == budget,
            idents@ == old(idents)@ + placed(done, old(idents)@.len()),
            target.pos == skip_ws(grammar@, input@, cur as nat, left as nat).pos,
            target.labels == done + skip_ws(grammar@, input@, cur as nat, left as nat).labels,
        decreases input.len() - cur,
    {
        let mark = idents.len();
        let ghost before = idents@;
        proof {
            lemma_run_rule_sound(grammar@, rule as nat, input@, cur as nat, left as nat);
        }
        match quick_parse_rule(grammar, rule, input, cur, left, idents) {
            None => {
                break ;
            },
            Some(p) => {
                let ghost m = run_rule(grammar@, rule as nat, input@, cur as nat, left as nat)->0;
                if p <= cur {
                    idents.truncate(mark);
                    assert(idents@ =~= before);
                    break ;
                }
                proof {
                    let next = done + m.labels;
                    lemma_placed_concat(done, m.labels, old(idents)@.len());
                    let rest = skip_ws(grammar@, input@, p as nat, grammar@.len() as nat);
                    assert(done + (m.labels + rest.labels) =~= next + rest.labels);
                    done = next;
                }
                cur = p;
                left = grammar.len();
            },
        }
    }
    proof {
        assert(done + Seq::<Label>::empty() =~= done);
    }
    cur
}

/// The quick procedure of an expression: the position after its match at
/// `pos`, with the labels of the match appended to the list, or nothing,
/// with the list as it was.
///
/// `budget` bounds how many rules may be entered one inside the other
/// before a byte is consumed.
pub fn quick_parse(
    grammar: &Grammar,
    expr: &FPestExpr,
    input: &[u8],
    pos: usize,
    budget: usize,
    idents: &mut Vec<(Ident, usize)>,
) -> (r: Option<usize>)
    ensures
        quick_outcome(
            run(grammar@, expr@, input@, pos as nat, budget as nat),
            r,
            old(idents)@,
            final(idents)@,
        ),
    decreases input.len() - pos, budget, 3nat, expr, 0nat,
{
    broadcast use {lemma_sequence_model, lemma_choice_model};

    if pos > input.len() {
        return None;
    }
    proof {
        lemma_placed_empty(old(idents)@.len());
        assert(old(idents)@ + Seq::<(Ident, usize)>::empty() =~= old(idents)@);
    }
    match expr {
        FPestExpr::Ident(name) => match Builtin::from_name(name.as_str()) {
            Some(builtin) => crate::pattern_ident::quick_parse_expr_id(builtin, input, pos),
            None => match grammar.find(name.as_str()) {
                Some(rule) => {
                    if budget == 0 {
                        None
                    } else {
                        quick_parse_rule(grammar, rule, input, pos, budget, idents)
                    }
                },
                None => None,
            },
        },
        FPestExpr::Str(value) => crate::pattern_expr_str::quick_parse_expr_id(
            value.as_str(),
            input,
            pos,
        ),
        FPestExpr::Insens(value) => crate::pattern_expr_insens::quick_parse_expr_id(
            value.as_str(),
            input,
            pos,
        ),
        FPestExpr::CharacterCondition(condition) => {
            crate::pattern_expr_character::quick_parse_expr_id(condition, input, pos)
        },
        FPestExpr::NegPred(inner) => crate::pattern_expr_neg::quick_parse_expr_id(
            grammar,
            inner,
            input,
            pos,
            budget,
            idents,
        ),
        FPestExpr::Sequence(items) => crate::pattern_expr_seq::quick_parse_expr_id(
            grammar,
            items,
            input,
            pos,
            budget,
            idents,
        ),
        FPestExpr::Choice(items) => crate::pattern_expr_choice::quick_parse_expr_id(
            grammar,
            items,
            input,
            pos,
            budget,
            idents,
        ),
        FPestExpr::Rep(inner, empty_accepted) => {
            if let FPestExpr::CharacterCondition(condition) = &**inner {
                assert(inner@ == ExprModel::CharacterCondition(*condition));
                crate::pattern_expr_rep_character::quick_parse_expr_id(
                    condition,
                    *empty_accepted,
                    input,
                    pos,
                )
            } else {
                assert(!(inner@ is CharacterCondition));
                crate::pattern_expr_rep::quick_parse_expr_id(
                    grammar,
                    inner,
                    *empty_accepted,
                    input,
                    pos,
                    budget,
                    idents,
                )
            }
        },
        FPestExpr::Opt(inner) => crate::pattern_expr_opt::quick_parse_expr_id(
            grammar,
            inner,
            input,
            pos,
            budget,
            idents,
        ),
    }
}


/// The full procedure of a rule: that of a silent rule or that of a rule
/// that leaves a label, as the rule says.
pub fn parse_rule(
    grammar: &Grammar,
    rule: usize,
    input: &[u8],
    pos: usize,
    budget: usize,
    idents: &mut Vec<(Ident, usize)>,
) -> (r: Result<usize, Error>)
    ensures
        full_outcome(
            run_rule(grammar@, rule as nat, input@, pos as nat, budget as nat),
            failure_body(grammar@, rule as nat, input@, pos as nat, budget as nat),
            r,
            old(idents)@,
            final(idents)@,
        ),
    decreases input.len() - pos, budget, 1nat,
{
    if rule >= grammar.len() {
        return Err(Error::at(ErrorKind::expected("rule"), remaining_at(input, pos), "rule"));
    }
    if grammar.rule(rule).silent {
        crate::pattern_rule_silent::parse_RuleVariant(grammar, rule, input, pos, budget, idents)
    } else {
        crate::pattern_rule::parse_RuleVariant(grammar, rule, input, pos, budget, idents)
    }
}

/// The full procedure of an expression: as the quick one where the
/// expression matches; where it does not, the error that says why, with
/// the list as it was.
pub fn parse(
    grammar: &Grammar,
    expr: &FPestExpr,
    input: &[u8],
    pos: usize,
    budget: usize,
    idents: &mut Vec<(Ident, usize)>,
) -> (r: Result<usize, Error>)
    ensures
        full_outcome(
            run(grammar@, expr@, input@, pos as nat, budget as nat),
            failure(grammar@, expr@, input@, pos as nat, budget as nat),
            r,
            old(idents)@,
            final(idents)@,
        ),
    decreases input.len() - pos, budget, 3nat, expr, 0nat,
{
    broadcast use {lemma_sequence_model, lemma_choice_model};

    if pos > input.len() {
        return Err(beyond(input, pos, to_pest::<RustGenerator>(expr).as_str()));
    }
    proof {
        lemma_placed_empty(old(idents)@.len());
        assert(old(idents)@ + Seq::<(Ident, usize)>::empty() =~= old(idents)@);
    }
    match expr {
        FPestExpr::Ident(name) => match Builtin::from_name(name.as_str()) {
            Some(builtin) => crate::pattern_ident::parse_expr_id(builtin, input, pos),
            None => match grammar.find(name.as_str()) {
                Some(rule) => {
                    if budget == 0 {
                        Err(
                            Error::at(
                                ErrorKind::expected(name.as_str()),
                                remaining_at(input, pos),
                                name.as_str(),
                            ),
                        )
                    } else {
                        parse_rule(grammar, rule, input, pos, budget, idents)
                    }
                },
                None => Err(
                    Error::at(
                        ErrorKind::expected(name.as_str()),
                        remaining_at(input, pos),
                        name.as_str(),
                    ),
                ),
            },
        },
        FPestExpr::Str(value) => crate::pattern_expr_str::parse_expr_id(
            value.as_str(),
            input,
            pos,
        ),
        FPestExpr::Insens(value) => crate::pattern_expr_insens::parse_expr_id(
            value.as_str(),
            input,
            pos,
        ),
        FPestExpr::CharacterCondition(condition) => {
            crate::pattern_expr_character::parse_expr_id(condition, input, pos)
        },
        FPestExpr::NegPred(inner) => crate::pattern_expr_neg::parse_expr_id(
            grammar,
            inner,
            input,
            pos,
            budget,
            idents,
        ),
        FPestExpr::Sequence(items) => crate::pattern_expr_seq::parse_expr_id(
            grammar,
            items,
            input,
            pos,
            budget,
            idents,
        ),
        FPestExpr::Choice(items) => crate::pattern_expr_choice::parse_expr_id(
            grammar,
            items,
            input,
            pos,
            budget,
            idents,
        ),
        FPestExpr::Rep(inner, empty_accepted) => {
            if let FPestExpr::CharacterCondition(condition) = &**inner {
                assert(inner@ == ExprModel::CharacterCondition(*condition));
                crate::pattern_expr_rep_character::parse_expr_id(
                    condition,
                    *empty_accepted,
                    input,
                    pos,
                )
            } else {
                assert(!(inner@ is CharacterCondition));
                crate::pattern_expr_rep::parse_expr_id(
                    grammar,
                    inner,
                    *empty_accepted,
                    input,
                    pos,
                    budget,
                    idents,
                )
            }
        },
        FPestExpr::Opt(inner) => crate::pattern_expr_opt::parse_expr_id(
            grammar,
            inner,
            input,
            pos,
            budget,
            idents,
        ),
    }
}

} // verus!
