//! The error that the full procedure of an expression reports where the
//! expression does not match.
use vstd::prelude::*;
use crate::error::{Error, ErrorKind, ErrorModel, KindModel};
use crate::expr::ExprModel;
use crate::expr_codegen::{hint_text, pest_text};
use crate::generator::condition_text;
use crate::pattern_outer::{placed, Ident};
use crate::rust_generator::RustGenerator;
use crate::semantics::{
    builtin_of,
    find_rule,
    next_budget,
    run,
    skip_ws,
    Builtin,
    Matched,
    RuleModel,
};
use crate::text::decimal_text;

verus! {

/// The text that stands for an expression in errors.
pub open spec fn label(e: ExprModel) -> Seq<char> {
    pest_text::<RustGenerator>(e)
}

/// The number of bytes that are left at a position.
pub open spec fn remaining(input: Seq<u8>, pos: nat) -> nat {
    if pos > input.len() {
        0
    } else {
        (input.len() - pos) as nat
    }
}

/// A fresh error at a position, in the context `root`.
pub open spec fn failed(kind: KindModel, input: Seq<u8>, pos: nat, root: Seq<char>) -> ErrorModel {
    ErrorModel { kind, remaining: remaining(input, pos), trace: seq![root], note: None }
}

/// The error with one more context at the end of its trace.
pub open spec fn traced(e: ErrorModel, frame: Seq<char>) -> ErrorModel {
    ErrorModel { trace: e.trace.push(frame), ..e }
}

/// The error with the hint, unless it has one already.
pub open spec fn noted(e: ErrorModel, hint: Option<Seq<char>>) -> ErrorModel {
    match hint {
        Some(h) => ErrorModel {
            note: if e.note is None {
                Some(h)
            } else {
                e.note
            },
            ..e
        },
        None => e,
    }
}

/// The hint for an item of a sequence that fails after a repetition or a
/// rule: that the one before it may have ended too early.
pub open spec fn hint_of(items: Seq<ExprModel>, k: nat) -> Option<Seq<char>> {
    hint_text::<RustGenerator>(items, k)
}

/// The context that a sequence adds to the error of its item `k`.
pub open spec fn arm(frame: Seq<char>, k: nat) -> Seq<char> {
    frame + " arm "@ + decimal_text(k)
}

/// The error of a builtin that does not match.
pub open spec fn builtin_failure(b: Builtin, input: Seq<u8>, pos: nat) -> ErrorModel {
    match b {
        Builtin::Soi => failed(KindModel::Expected("SOI"@), input, pos, "SOI"@),
        Builtin::Eoi => failed(KindModel::Expected("EOI"@), input, pos, "EOI"@),
        Builtin::Newline => failed(KindModel::Expected("newline"@), input, pos, "NEWLINE"@),
    }
}

/// The error of an expression that does not match at a position.
///
/// A literal, a byte test and a builtin report what they expected. A
/// negative lookahead reports the expression that matched. A choice
/// reports the errors of all its alternatives. A sequence reports the
/// error of the item that failed, with itself and the place of the item
/// as one more context, and with a hint where the item before it was a
/// repetition or a rule. A rule and a repetition report the error of what
/// they hold. A reference to a rule that the grammar does not have, or
/// that is entered beyond the budget, reports that the rule was expected.
pub open spec fn failure(
    rules: Seq<RuleModel>,
    e: ExprModel,
    input: Seq<u8>,
    pos: nat,
    budget: nat,
) -> ErrorModel
    decreases input.len() - pos, budget, 1nat, e, 0nat,
{
    if pos > input.len() {
        failed(KindModel::Expected("input"@), input, pos, label(e))
    } else {
        match e {
            ExprModel::Str(value) => failed(KindModel::ExpectedValue(value), input, pos, label(e)),
            ExprModel::Insens(value) => failed(
                KindModel::ExpectedValue(value),
                input,
                pos,
                label(e),
            ),
            ExprModel::CharacterCondition(c) => failed(
                KindModel::Expected(condition_text::<RustGenerator>(c)),
                input,
                pos,
                label(e),
            ),
            ExprModel::Ident(name) => match builtin_of(name) {
                Some(b) => builtin_failure(b, input, pos),
                None => match find_rule(rules, name) {
                    Some(k) => if budget == 0 {
                        failed(KindModel::Expected(name), input, pos, name)
                    } else {
                        failure(rules, rules[k as int].expr, input, pos, (budget - 1) as nat)
                    },
                    None => failed(KindModel::Expected(name), input, pos, name),
                },
            },
            ExprModel::NegPred(inner) => failed(
                KindModel::NegPredFailed(label(*inner)),
                input,
                pos,
                label(e),
            ),
            ExprModel::Opt(_) => failed(KindModel::Expected(label(e)), input, pos, label(e)),
            ExprModel::Choice(items) => failed(
                KindModel::All(failure_all(rules, items, input, pos, budget)),
                input,
                pos,
                label(e),
            ),
            ExprModel::Sequence(items) => failure_seq(
                rules,
                items,
                0,
                input,
                pos,
                budget,
                label(e),
            ),
            ExprModel::Rep(inner, _) => match *inner {
                ExprModel::CharacterCondition(c) => failed(
                    KindModel::Expected(condition_text::<RustGenerator>(c)),
                    input,
                    pos,
                    label(e),
                ),
                _ => failure(rules, *inner, input, pos, budget),
            },
        }
    }
}

/// The errors of all the alternatives of a choice.
pub open spec fn failure_all(
    rules: Seq<RuleModel>,
    items: Seq<ExprModel>,
    input: Seq<u8>,
    pos: nat,
    budget: nat,
) -> Seq<ErrorModel>
    decreases input.len() - pos, budget, 1nat, items, 1nat,
{
    Seq::new(
        items.len(),
        |i: int|
            if 0 <= i < items.len() {
                failure(rules, items[i], input, pos, budget)
            } else {
                arbitrary()
            },
    )
}

/// The error of a sequence whose items from `k` on do not all match.
pub open spec fn failure_seq(
    rules: Seq<RuleModel>,
    items: Seq<ExprModel>,
    k: nat,
    input: Seq<u8>,
    pos: nat,
    budget: nat,
    frame: Seq<char>,
) -> ErrorModel
    decreases input.len() - pos, budget, 1nat, items, items.len() - k,
{
    if pos > input.len() || k >= items.len() {
        failed(KindModel::Expected(frame), input, pos, frame)
    } else {
        match run(rules, items[k as int], input, pos, budget) {
            None => traced(
                noted(failure(rules, items[k as int], input, pos, budget), hint_of(items, k)),
                arm(frame, k),
            ),
            Some(m) => if m.pos < pos || m.pos > input.len() {
                failed(KindModel::Expected(frame), input, pos, frame)
            } else {
                let w = skip_ws(rules, input, m.pos, next_budget(rules, pos, m.pos, budget));
                if w.pos < m.pos || w.pos > input.len() {
                    failed(KindModel::Expected(frame), input, pos, frame)
                } else {
                    failure_seq(
                        rules,
                        items,
                        k + 1,
                        input,
                        w.pos,
                        next_budget(rules, pos, w.pos, budget),
                        frame,
                    )
                }
            },
        }
    }
}

/// The error of a rule that does not match at a position.
pub open spec fn failure_body(
    rules: Seq<RuleModel>,
    k: nat,
    input: Seq<u8>,
    pos: nat,
    budget: nat,
) -> ErrorModel {
    if k >= rules.len() {
        failed(KindModel::Expected("rule"@), input, pos, "rule"@)
    } else if pos > input.len() || budget == 0 {
        failed(KindModel::Expected(rules[k as int].name), input, pos, rules[k as int].name)
    } else {
        failure(rules, rules[k as int].expr, input, pos, (budget - 1) as nat)
    }
}

/// How the full procedure of a node answers a match or its absence: it
/// returns the position after the match and appends the labels of the
/// match to the list, or returns the error and leaves the list as it was.
pub open spec fn full_outcome(
    m: Option<Matched>,
    error: ErrorModel,
    r: Result<usize, Error>,
    before: Seq<(Ident, usize)>,
    after: Seq<(Ident, usize)>,
) -> bool {
    match m {
        Some(x) => r matches Ok(p) && p == x.pos as usize && after == before + placed(
            x.labels,
            before.len(),
        ),
        None => r matches Err(e) && e@ == error && after == before,
    }
}

/// How the full procedure of a node that leaves no labels answers.
pub open spec fn full_answer(m: Option<Matched>, error: ErrorModel, r: Result<usize, Error>) -> bool {
    match m {
        Some(x) => r matches Ok(p) && p == x.pos as usize,
        None => r matches Err(e) && e@ == error,
    }
}


/// The number of bytes that are left at a position.
pub fn remaining_at(input: &[u8], pos: usize) -> (r: usize)
    ensures
        r == remaining(input@, pos as nat),
{
    if pos > input.len() {
        0
    } else {
        input.len() - pos
    }
}

/// The error of a position that lies past the input.
pub fn beyond(input: &[u8], pos: usize, root: &str) -> (r: Error)
    ensures
        r@ == failed(KindModel::Expected("input"@), input@, pos as nat, root@),
{
    Error::at(ErrorKind::expected("input"), remaining_at(input, pos), root)
}

} // verus!
