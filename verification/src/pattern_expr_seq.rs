//! Sequence.
use vstd::prelude::*;
use crate::diagnosis::{beyond, failure, failure_seq, full_outcome};
use crate::error::Error;
use crate::expr::{models_of, ExprModel, FPestExpr};
use crate::expr_codegen::{hint, to_pest_list};
use crate::forest::{lemma_run_bounds, lemma_skip_ws_bounds};
use crate::grammar::Grammar;
use crate::matcher::{parse, quick_parse, quick_skip_ws};
use crate::pattern_outer::{lemma_placed_concat, lemma_placed_empty, placed, quick_outcome, Ident};
use crate::rust_generator::RustGenerator;
use crate::semantics::{run, run_seq, skip_ws};
use crate::text::{append_decimal, concat2, concat3};

verus! {

/// The quick procedures of the items from `k` on, each from where the one
/// before it ended, with whitespace skipped after every item. Where an
/// item fails the list keeps what it held, and may hold more after it.
#[verifier::rlimit(80)]
pub fn quick_items(
    grammar: &Grammar,
    items: &Vec<FPestExpr>,
    k: usize,
    input: &[u8],
    pos: usize,
    budget: usize,
    idents: &mut Vec<(Ident, usize)>,
) -> (r: Option<usize>)
    requires
        k <= items.len(),
        pos <= input.len(),
    ensures
        match run_seq(grammar@, models_of(items@), k as nat, input@, pos as nat, budget as nat) {
            Some(m) => r == Some(m.pos as usize) && final(idents)@ == old(idents)@ + placed(
                m.labels,
                old(idents)@.len(),
            ),
            None => r is None && final(idents)@.len() >= old(idents)@.len() && final(idents)@.subrange(
                0,
                old(idents)@.len() as int,
            ) == old(idents)@,
        },
    decreases input.len() - pos, budget, 3nat, items, items.len() - k,
{
    if k >= items.len() {
        proof {
            lemma_placed_empty(old(idents)@.len());
            assert(old(idents)@ + Seq::<(Ident, usize)>::empty() =~= old(idents)@);
        }
        return Some(pos);
    }
    let ghost parts = models_of(items@);
    proof {
        assert(decreases_to!(*items => items[k as int]));
        assert(parts[k as int] == items@[k as int]@);
        lemma_run_bounds(grammar@, parts[k as int], input@, pos as nat, budget as nat);
    }
    match quick_parse(grammar, &items[k], input, pos, budget, idents) {
        None => {
            assert(idents@.subrange(0, old(idents)@.len() as int) =~= old(idents)@);
            None
        },
        Some(p) => {
            let ghost m = run(grammar@, parts[k as int], input@, pos as nat, budget as nat)->0;
            let left1 = if p > pos {
                grammar.len()
            } else {
                budget
            };
            proof {
                lemma_skip_ws_bounds(grammar@, input@, p as nat, left1 as nat);
            }
            let w = quick_skip_ws(grammar, input, p, left1, idents);
            let ghost ws = skip_ws(grammar@, input@, p as nat, left1 as nat);
            let left2 = if w > pos {
                grammar.len()
            } else {
                budget
            };
            let ghost mid = idents@;
            match quick_items(grammar, items, k + 1, input, w, left2, idents) {
                None => {
                    assert(idents@.subrange(0, old(idents)@.len() as int) =~= mid.subrange(
                        0,
                        old(idents)@.len() as int,
                    ));
                    assert(mid.subrange(0, old(idents)@.len() as int) =~= old(idents)@);
                    None
                },
                Some(end) => {
                    proof {
                        let rest = run_seq(
                            grammar@,
                            parts,
                            (k + 1) as nat,
                            input@,
                            w as nat,
                            left2 as nat,
                        )->0;
                        lemma_placed_concat(m.labels, ws.labels, old(idents)@.len());
                        lemma_placed_concat(
                            m.labels + ws.labels,
                            rest.labels,
                            old(idents)@.len(),
                        );
                        assert(idents@ =~= old(idents)@ + placed(
                            m.labels + ws.labels + rest.labels,
                            old(idents)@.len(),
                        ));
                    }
                    Some(end)
                },
            }
        },
    }
}

/// The quick procedure of a sequence: the items from left to right, each
/// from where the one before it ended, with whitespace skipped after
/// every item where the grammar has a rule for it. Where an item fails
/// the sequence fails, and the list is cut back to what it was.
pub fn quick_parse_expr_id(
    grammar: &Grammar,
    items: &Vec<FPestExpr>,
    input: &[u8],
    pos: usize,
    budget: usize,
    idents: &mut Vec<(Ident, usize)>,
) -> (r: Option<usize>)
    ensures
        quick_outcome(
            run(
                grammar@,
                ExprModel::Sequence(models_of(items@)),
                input@,
                pos as nat,
                budget as nat,
            ),
            r,
            old(idents)@,
            final(idents)@,
        ),
    decreases input.len() - pos, budget, 3nat, items, items.len() + 1,
{
    if pos > input.len() {
        return None;
    }
    let idents_len = idents.len();
    match quick_items(grammar, items, 0, input, pos, budget, idents) {
        Some(end) => Some(end),
        None => {
            idents.truncate(idents_len);
            None
        },
    }
}

/// The full procedures of the items from `k` on, as the quick ones, with
/// the error of the item that fails. Where an item fails the list keeps
/// what it held, and may hold more after it.
#[verifier::rlimit(80)]
pub fn full_items(
    grammar: &Grammar,
    items: &Vec<FPestExpr>,
    k: usize,
    input: &[u8],
    pos: usize,
    budget: usize,
    root: &str,
    idents: &mut Vec<(Ident, usize)>,
) -> (r: Result<usize, Error>)
    requires
        k <= items.len(),
        pos <= input.len(),
    ensures
        match run_seq(grammar@, models_of(items@), k as nat, input@, pos as nat, budget as nat) {
            Some(m) => r matches Ok(p) && p == m.pos as usize && final(idents)@ == old(idents)@
                + placed(m.labels, old(idents)@.len()),
            None => r matches Err(e) && e@ == failure_seq(
                grammar@,
                models_of(items@),
                k as nat,
                input@,
                pos as nat,
                budget as nat,
                root@,
            ) && final(idents)@.len() >= old(idents)@.len() && final(idents)@.subrange(
                0,
                old(idents)@.len() as int,
            ) == old(idents)@,
        },
    decreases input.len() - pos, budget, 3nat, items, items.len() - k,
{
    if k >= items.len() {
        proof {
            lemma_placed_empty(old(idents)@.len());
            assert(old(idents)@ + Seq::<(Ident, usize)>::empty() =~= old(idents)@);
        }
        return Ok(pos);
    }
    let ghost parts = models_of(items@);
    proof {
        assert(decreases_to!(*items => items[k as int]));
        assert(parts[k as int] == items@[k as int]@);
        lemma_run_bounds(grammar@, parts[k as int], input@, pos as nat, budget as nat);
    }
    match parse(grammar, &items[k], input, pos, budget, idents) {
        Err(e) => {
            let e = match hint::<RustGenerator>(items, k) {
                Some(h) => e.with_note(h.as_str()),
                None => e,
            };
            let mut frame = concat2(root, " arm ");
            append_decimal(&mut frame, k);
            assert(idents@.subrange(0, old(idents)@.len() as int) =~= old(idents)@);
            Err(e.with_trace(frame.as_str()))
        },
        Ok(p) => {
            let ghost m = run(grammar@, parts[k as int], input@, pos as nat, budget as nat)->0;
            let left1 = if p > pos {
                grammar.len()
            } else {
                budget
            };
            proof {
                lemma_skip_ws_bounds(grammar@, input@, p as nat, left1 as nat);
            }
            let w = quick_skip_ws(grammar, input, p, left1, idents);
            let ghost ws = skip_ws(grammar@, input@, p as nat, left1 as nat);
            let left2 = if w > pos {
                grammar.len()
            } else {
                budget
            };
            let ghost mid = idents@;
            match full_items(grammar, items, k + 1, input, w, left2, root, idents) {
                Err(e) => {
                    assert(idents@.subrange(0, old(idents)@.len() as int) =~= mid.subrange(
                        0,
                        old(idents)@.len() as int,
                    ));
                    assert(mid.subrange(0, old(idents)@.len() as int) =~= old(idents)@);
                    Err(e)
                },
                Ok(end) => {
                    proof {
                        let rest = run_seq(
                            grammar@,
                            parts,
                            (k + 1) as nat,
                            input@,
                            w as nat,
                            left2 as nat,
                        )->0;
                        lemma_placed_concat(m.labels, ws.labels, old(idents)@.len());
                        lemma_placed_concat(
                            m.labels + ws.labels,
                            rest.labels,
                            old(idents)@.len(),
                        );
                        assert(idents@ =~= old(idents)@ + placed(
                            m.labels + ws.labels + rest.labels,
                            old(idents)@.len(),
                        ));
                    }
                    Ok(end)
                },
            }
        },
    }
}

/// The full procedure of a sequence: as the quick one, with the full
/// procedures of the items. The error of the item that fails gets a hint
/// where the item before it was a repetition or a rule, and the sequence
/// with the place of the item as one more context.
pub fn parse_expr_id(
    grammar: &Grammar,
    items: &Vec<FPestExpr>,
    input: &[u8],
    pos: usize,
    budget: usize,
    idents: &mut Vec<(Ident, usize)>,
) -> (r: Result<usize, Error>)
    ensures
        full_outcome(
            run(
                grammar@,
                ExprModel::Sequence(models_of(items@)),
                input@,
                pos as nat,
                budget as nat,
            ),
            failure(
                grammar@,
                ExprModel::Sequence(models_of(items@)),
                input@,
                pos as nat,
                budget as nat,
            ),
            r,
            old(idents)@,
            final(idents)@,
        ),
    decreases input.len() - pos, budget, 3nat, items, items.len() + 1,
{
    let root = concat3("(", to_pest_list::<RustGenerator>(items, " ~ ").as_str(), ")");
    if pos > input.len() {
        return Err(beyond(input, pos, root.as_str()));
    }
    let idents_len = idents.len();
    match full_items(grammar, items, 0, input, pos, budget, root.as_str(), idents) {
        Ok(end) => Ok(end),
        Err(e) => {
            idents.truncate(idents_len);
            Err(e)
        },
    }
}

} // verus!
