//! Repetition, occurrence by occurrence.
use vstd::prelude::*;
use vstd::string::*;
use crate::diagnosis::{beyond, failed, failure, full_outcome, label};
use crate::error::{Error, ErrorModel, KindModel};
use crate::expr::ExprModel;
use crate::expr::FPestExpr;
use crate::expr_codegen::to_pest;
use crate::forest::{lemma_run_sound, lemma_skip_ws_sound};
use crate::grammar::Grammar;
use crate::matcher::{parse, quick_parse, quick_skip_ws};
use crate::pattern_outer::{lemma_placed_concat, lemma_placed_empty, placed, quick_outcome, Ident};
use crate::rust_generator::RustGenerator;
use crate::semantics::{run, run_rep, run_repetition, skip_ws, Label, RuleModel};

verus! {

/// As many occurrences as match, with whitespace skipped after each where
/// the grammar has a rule for it; returns the position after them. The
/// repetition ends before the first occurrence that fails or that, with
/// the whitespace after it, consumes nothing; what that occurrence
/// appended to the list is removed again.
#[verifier::loop_isolation(false)]
pub fn quick_repeat(
    grammar: &Grammar,
    inner: &FPestExpr,
    input: &[u8],
    pos: usize,
    budget: usize,
    idents: &mut Vec<(Ident, usize)>,
) -> (r: usize)
    requires
        pos <= input.len(),
    ensures
        r == run_rep(grammar@, inner@, input@, pos as nat, budget as nat).pos,
        final(idents)@ == old(idents)@ + placed(
            run_rep(grammar@, inner@, input@, pos as nat, budget as nat).labels,
            old(idents)@.len(),
        ),
    decreases input.len() - pos, budget, 3nat, inner, 1nat,
{
    let ghost mut done: Seq<Label> = Seq::empty();
    let ghost target = run_rep(grammar@, inner@, input@, pos as nat, budget as nat);
    let mut cur: usize = pos;
    let mut left: usize = budget;
    proof {
        lemma_placed_empty(old(idents)@.len());
        assert(old(idents)@ + Seq::<(Ident, usize)>::empty() =~= old(idents)@);
        assert(Seq::<Label>::empty() + target.labels =~= target.labels);
    }
    loop
        invariant
            pos <= cur <= input.len(),
            cur == pos ==> left == budget,
            idents@ == old(idents)@ + placed(done, old(idents)@.len()),
            target.pos == run_rep(grammar@, inner@, input@, cur as nat, left as nat).pos,
            target.labels == done + run_rep(
                grammar@,
                inner@,
                input@,
                cur as nat,
                left as nat,
            ).labels,
        decreases input.len() - cur,
    {
        let mark = idents.len();
        let ghost before = idents@;
        proof {
            lemma_run_sound(grammar@, inner@, input@, cur as nat, left as nat);
        }
        match quick_parse(grammar, inner, input, cur, left, idents) {
            None => {
                break ;
            },
            Some(p) => {
                let ghost m = run(grammar@, inner@, input@, cur as nat, left as nat)->0;
                let left1 = if p > cur {
                    grammar.len()
                } else {
                    left
                };
                proof {
                    lemma_skip_ws_sound(grammar@, input@, p as nat, left1 as nat);
                }
                let w = quick_skip_ws(grammar, input, p, left1, idents);
                let ghost ws = skip_ws(grammar@, input@, p as nat, left1 as nat);
                if w <= cur {
                    idents.truncate(mark);
                    assert(idents@ =~= before);
                    break ;
                }
                proof {
                    let next = done + m.labels + ws.labels;
                    lemma_placed_concat(done, m.labels, old(idents)@.len());
                    lemma_placed_concat(done + m.labels, ws.labels, old(idents)@.len());
                    assert(idents@ =~= old(idents)@ + placed(next, old(idents)@.len()));
                    let rest = run_rep(
                        grammar@,
                        inner@,
                        input@,
                        w as nat,
                        grammar@.len() as nat,
                    );
                    assert(done + (m.labels + ws.labels + rest.labels) =~= next + rest.labels);
                    done = next;
                }
                cur = w;
                left = grammar.len();
            },
        }
    }
    proof {
        assert(done + Seq::<Label>::empty() =~= done);
    }
    cur
}

/// The quick procedure of a repetition: one occurrence first, unless
/// `empty_accepted`, with whitespace skipped after it, and then as many
/// as match.
pub fn quick_parse_expr_id(
    grammar: &Grammar,
    inner: &FPestExpr,
    empty_accepted: bool,
    input: &[u8],
    pos: usize,
    budget: usize,
    idents: &mut Vec<(Ident, usize)>,
) -> (r: Option<usize>)
    ensures
        quick_outcome(
            run_repetition(
                grammar@,
                inner@,
                empty_accepted,
                input@,
                pos as nat,
                budget as nat,
            ),
            r,
            old(idents)@,
            final(idents)@,
        ),
    decreases input.len() - pos, budget, 3nat, inner, 2nat,
{
    if pos > input.len() {
        return None;
    }
    if empty_accepted {
        return Some(quick_repeat(grammar, inner, input, pos, budget, idents));
    }
    proof {
        lemma_run_sound(grammar@, inner@, input@, pos as nat, budget as nat);
    }
    match quick_parse(grammar, inner, input, pos, budget, idents) {
        None => None,
        Some(p) => {
            let ghost first = run(grammar@, inner@, input@, pos as nat, budget as nat)->0;
            let left1 = if p > pos {
                grammar.len()
            } else {
                budget
            };
            proof {
                lemma_skip_ws_sound(grammar@, input@, p as nat, left1 as nat);
            }
            let w = quick_skip_ws(grammar, input, p, left1, idents);
            let ghost ws = skip_ws(grammar@, input@, p as nat, left1 as nat);
            let left = if w > pos {
                grammar.len()
            } else {
                budget
            };
            let end = quick_repeat(grammar, inner, input, w, left, idents);
            proof {
                let more = run_rep(grammar@, inner@, input@, w as nat, left as nat);
                lemma_placed_concat(first.labels, ws.labels, old(idents)@.len());
                lemma_placed_concat(first.labels + ws.labels, more.labels, old(idents)@.len());
                assert(idents@ =~= old(idents)@ + placed(
                    first.labels + ws.labels + more.labels,
                    old(idents)@.len(),
                ));
            }
            Some(end)
        },
    }
}


/// The error of a repetition that does not match: that of its first
/// occurrence.
pub open spec fn repetition_failure(
    rules: Seq<RuleModel>,
    inner: ExprModel,
    empty_accepted: bool,
    input: Seq<u8>,
    pos: nat,
    budget: nat,
) -> ErrorModel {
    if pos > input.len() {
        failed(
            KindModel::Expected("input"@),
            input,
            pos,
            label(ExprModel::Rep(Box::new(inner), empty_accepted)),
        )
    } else {
        failure(rules, inner, input, pos, budget)
    }
}

/// The full procedure of a repetition: as the quick one, with the full
/// procedure for the occurrence that is required, whose error it reports.
pub fn parse_expr_id(
    grammar: &Grammar,
    inner: &FPestExpr,
    empty_accepted: bool,
    input: &[u8],
    pos: usize,
    budget: usize,
    idents: &mut Vec<(Ident, usize)>,
) -> (r: Result<usize, Error>)
    ensures
        full_outcome(
            run_repetition(
                grammar@,
                inner@,
                empty_accepted,
                input@,
                pos as nat,
                budget as nat,
            ),
            repetition_failure(
                grammar@,
                inner@,
                empty_accepted,
                input@,
                pos as nat,
                budget as nat,
            ),
            r,
            old(idents)@,
            final(idents)@,
        ),
    decreases input.len() - pos, budget, 3nat, inner, 2nat,
{
    if pos > input.len() {
        let mut root = to_pest::<RustGenerator>(inner);
        if empty_accepted {
            root.append("*");
        } else {
            root.append("+");
        }
        return Err(beyond(input, pos, root.as_str()));
    }
    if empty_accepted {
        return Ok(quick_repeat(grammar, inner, input, pos, budget, idents));
    }
    proof {
        lemma_run_sound(grammar@, inner@, input@, pos as nat, budget as nat);
    }
    match parse(grammar, inner, input, pos, budget, idents) {
        Err(e) => Err(e),
        Ok(p) => {
            let ghost first = run(grammar@, inner@, input@, pos as nat, budget as nat)->0;
            let left1 = if p > pos {
                grammar.len()
            } else {
                budget
            };
            proof {
                lemma_skip_ws_sound(grammar@, input@, p as nat, left1 as nat);
            }
            let w = quick_skip_ws(grammar, input, p, left1, idents);
            let ghost ws = skip_ws(grammar@, input@, p as nat, left1 as nat);
            let left = if w > pos {
                grammar.len()
            } else {
                budget
            };
            let end = quick_repeat(grammar, inner, input, w, left, idents);
            proof {
                let more = run_rep(grammar@, inner@, input@, w as nat, left as nat);
                lemma_placed_concat(first.labels, ws.labels, old(idents)@.len());
                lemma_placed_concat(first.labels + ws.labels, more.labels, old(idents)@.len());
                assert(idents@ =~= old(idents)@ + placed(
                    first.labels + ws.labels + more.labels,
                    old(idents)@.len(),
                ));
            }
            Ok(end)
        },
    }
}

} // verus!
