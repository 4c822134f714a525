//! What it means for an expression of a grammar to match an input.
//!
//! The meaning is given as a function from a position in the input to the
//! position after the match and the labels that the match leaves, or to
//! nothing when the expression does not match there. Both matching
//! procedures of every node compute this function.
use vstd::prelude::*;
use crate::condition::{is_lower, is_upper, Condition};
use crate::expr::ExprModel;
use crate::raw::bytes_of;

verus! {

/// A rule of a grammar.
pub struct RuleModel {
    pub name: Seq<char>,
    /// A silent rule leaves no label of its own.
    pub silent: bool,
    pub expr: ExprModel,
}

/// The label that a rule leaves when it has matched the bytes from
/// `start` to `end`; `size` counts the label itself and the labels below
/// it, which follow it directly.
pub struct Label {
    pub rule: nat,
    pub start: nat,
    pub end: nat,
    pub size: nat,
}

/// A successful match: the position after it and the labels it leaves,
/// in the order in which their rules were entered.
pub struct Matched {
    pub pos: nat,
    pub labels: Seq<Label>,
}

/// A match that leaves no label.
pub open spec fn plain(pos: nat) -> Matched {
    Matched { pos, labels: Seq::empty() }
}

/// The first rule from `from` on that has the name.
pub open spec fn find_from(rules: Seq<RuleModel>, name: Seq<char>, from: nat) -> Option<nat>
    decreases rules.len() - from,
{
    if from >= rules.len() {
        None
    } else if rules[from as int].name == name {
        Some(from)
    } else {
        find_from(rules, name, from + 1)
    }
}

/// The first rule that has the name.
pub open spec fn find_rule(rules: Seq<RuleModel>, name: Seq<char>) -> Option<nat> {
    find_from(rules, name, 0)
}

/// Whether the grammar has a rule that is skipped between the items of
/// sequences and repetitions.
pub open spec fn has_whitespace(rules: Seq<RuleModel>) -> bool {
    find_rule(rules, "WHITESPACE"@) is Some
}

/// The literal stands at the position.
pub open spec fn literal_at(input: Seq<u8>, pos: nat, literal: Seq<u8>) -> Option<Matched> {
    if pos + literal.len() <= input.len() && input.subrange(
        pos as int,
        pos as int + literal.len(),
    ) == literal {
        Some(plain(pos + literal.len()))
    } else {
        None
    }
}

/// The byte with the case of an ASCII letter inverted.
pub open spec fn flipped(c: u8) -> u8 {
    if is_upper(c) {
        (c + 32) as u8
    } else if is_lower(c) {
        (c - 32) as u8
    } else {
        c
    }
}

/// The literal stands at the position, up to the case of ASCII letters.
pub open spec fn insens_at(input: Seq<u8>, pos: nat, literal: Seq<u8>) -> Option<Matched> {
    if pos + literal.len() <= input.len() && forall|i: int|
        0 <= i < literal.len() ==> (#[trigger] input[pos as int + i] == literal[i] || input[pos as int + i]
            == flipped(literal[i])) {
        Some(plain(pos + literal.len()))
    } else {
        None
    }
}

/// A line break stands at the position: `\r\n`, or else one of `\n`, `\r`.
pub open spec fn newline_at(input: Seq<u8>, pos: nat) -> Option<Matched> {
    if pos + 2 <= input.len() && input[pos as int] == 13 && input[pos as int + 1] == 10 {
        Some(plain(pos + 2))
    } else if pos < input.len() && (input[pos as int] == 10 || input[pos as int] == 13) {
        Some(plain(pos + 1))
    } else {
        None
    }
}

/// The number of bytes from the position on that pass the test, up to the
/// first that does not.
pub open spec fn scan(c: Condition, input: Seq<u8>, pos: nat) -> nat
    decreases input.len() - pos,
{
    if pos < input.len() && c.accepts(input[pos as int]) {
        1 + scan(c, input, pos + 1)
    } else {
        0
    }
}

/// The number of rules that may be entered, one inside the other, before
/// a byte is consumed: all of it again once the position has moved.
pub open spec fn next_budget(rules: Seq<RuleModel>, from: nat, to: nat, budget: nat) -> nat {
    if to > from {
        rules.len()
    } else {
        budget
    }
}

/// The match of a rule that puts its own label in front of the labels of
/// its body.
pub open spec fn labelled(k: nat, pos: nat, body: Option<Matched>) -> Option<Matched> {
    match body {
        None => None,
        Some(m) => Some(
            Matched {
                pos: m.pos,
                labels: seq![Label { rule: k, start: pos, end: m.pos, size: 1 + m.labels.len() }]
                    + m.labels,
            },
        ),
    }
}

/// What a rule makes of the match of its body: a silent rule hands it
/// on, any other rule puts its own label in front.
pub open spec fn entered(rules: Seq<RuleModel>, k: nat, pos: nat, body: Option<Matched>) -> Option<
    Matched,
> {
    if rules[k as int].silent {
        body
    } else {
        labelled(k, pos, body)
    }
}

/// One byte that passes the test stands at the position.
pub open spec fn character_at(c: Condition, input: Seq<u8>, pos: nat) -> Option<Matched> {
    if pos < input.len() && c.accepts(input[pos as int]) {
        Some(plain(pos + 1))
    } else {
        None
    }
}

/// The run of bytes from the position on that pass the test; an empty run
/// is no match unless `empty_accepted`.
pub open spec fn run_at(c: Condition, empty_accepted: bool, input: Seq<u8>, pos: nat) -> Option<
    Matched,
> {
    if pos > input.len() || (!empty_accepted && scan(c, input, pos) == 0) {
        None
    } else {
        Some(plain(pos + scan(c, input, pos)))
    }
}

/// The builtin identifiers that stay in the reduced tree.
#[derive(Debug, Clone, Copy, PartialEq, Eq, Structural)]
pub enum Builtin {
    /// The start of the input; matches everywhere and consumes nothing.
    Soi,
    /// The end of the input.
    Eoi,
    /// A line break.
    Newline,
}

/// The builtin that an identifier names, if it names one.
pub open spec fn builtin_of(name: Seq<char>) -> Option<Builtin> {
    if name == "SOI"@ {
        Some(Builtin::Soi)
    } else if name == "EOI"@ {
        Some(Builtin::Eoi)
    } else if name == "NEWLINE"@ {
        Some(Builtin::Newline)
    } else {
        None
    }
}

/// The match of a builtin at a position.
pub open spec fn builtin_at(b: Builtin, input: Seq<u8>, pos: nat) -> Option<Matched> {
    if pos > input.len() {
        None
    } else {
        match b {
            Builtin::Soi => Some(plain(pos)),
            Builtin::Eoi => if pos == input.len() {
                Some(plain(pos))
            } else {
                None
            },
            Builtin::Newline => newline_at(input, pos),
        }
    }
}

/// The match of an expression at a position.
///
/// `budget` bounds how many rules may be entered one inside the other
/// without a byte being consumed; a rule entered beyond it does not match.
pub open spec fn run(
    rules: Seq<RuleModel>,
    e: ExprModel,
    input: Seq<u8>,
    pos: nat,
    budget: nat,
) -> Option<Matched>
    decreases input.len() - pos, budget, 1nat, e, 0nat,
{
    if pos > input.len() {
        None
    } else {
        match e {
            ExprModel::Str(value) => literal_at(input, pos, bytes_of(value)),
            ExprModel::Insens(value) => insens_at(input, pos, bytes_of(value)),
            ExprModel::CharacterCondition(c) => character_at(c, input, pos),
            ExprModel::Ident(name) => match builtin_of(name) {
                Some(b) => builtin_at(b, input, pos),
                None => match find_rule(rules, name) {
                    None => None,
                    Some(k) => if budget == 0 {
                        None
                    } else {
                        entered(
                            rules,
                            k,
                            pos,
                            run(rules, rules[k as int].expr, input, pos, (budget - 1) as nat),
                        )
                    },
                },
            },
            ExprModel::NegPred(inner) => match run(rules, *inner, input, pos, budget) {
                Some(_) => None,
                None => Some(plain(pos)),
            },
            ExprModel::Opt(inner) => match run(rules, *inner, input, pos, budget) {
                Some(m) => Some(m),
                None => Some(plain(pos)),
            },
            ExprModel::Choice(items) => run_choice(rules, items, 0, input, pos, budget),
            ExprModel::Sequence(items) => run_seq(rules, items, 0, input, pos, budget),
            ExprModel::Rep(inner, empty_accepted) => match *inner {
                ExprModel::CharacterCondition(c) => run_at(c, empty_accepted, input, pos),
                _ => run_repetition(rules, *inner, empty_accepted, input, pos, budget),
            },
        }
    }
}

/// A repetition that is matched occurrence by occurrence: one occurrence
/// first, unless `empty_accepted`, with whitespace skipped after it as
/// after every other, and then as many as match.
pub open spec fn run_repetition(
    rules: Seq<RuleModel>,
    inner: ExprModel,
    empty_accepted: bool,
    input: Seq<u8>,
    pos: nat,
    budget: nat,
) -> Option<Matched>
    decreases input.len() - pos, budget, 1nat, inner, 2nat,
{
    if pos > input.len() {
        None
    } else if empty_accepted {
        Some(run_rep(rules, inner, input, pos, budget))
    } else {
        match run(rules, inner, input, pos, budget) {
            None => None,
            Some(first) => if first.pos < pos || first.pos > input.len() {
                None
            } else {
                let w = skip_ws(
                    rules,
                    input,
                    first.pos,
                    next_budget(rules, pos, first.pos, budget),
                );
                if w.pos < first.pos || w.pos > input.len() {
                    None
                } else {
                    let more = run_rep(
                        rules,
                        inner,
                        input,
                        w.pos,
                        next_budget(rules, pos, w.pos, budget),
                    );
                    Some(
                        Matched {
                            pos: more.pos,
                            labels: first.labels + w.labels + more.labels,
                        },
                    )
                }
            },
        }
    }
}

/// The first alternative from `k` on that matches.
pub open spec fn run_choice(
    rules: Seq<RuleModel>,
    items: Seq<ExprModel>,
    k: nat,
    input: Seq<u8>,
    pos: nat,
    budget: nat,
) -> Option<Matched>
    decreases input.len() - pos, budget, 1nat, items, items.len() - k,
{
    if pos > input.len() || k >= items.len() {
        None
    } else {
        match run(rules, items[k as int], input, pos, budget) {
            Some(m) => Some(m),
            None => run_choice(rules, items, k + 1, input, pos, budget),
        }
    }
}

/// The items from `k` on, one after the other, each followed by
/// whitespace where the grammar has a rule for it.
pub open spec fn run_seq(
    rules: Seq<RuleModel>,
    items: Seq<ExprModel>,
    k: nat,
    input: Seq<u8>,
    pos: nat,
    budget: nat,
) -> Option<Matched>
    decreases input.len() - pos, budget, 1nat, items, items.len() - k,
{
    if pos > input.len() {
        None
    } else if k >= items.len() {
        Some(plain(pos))
    } else {
        match run(rules, items[k as int], input, pos, budget) {
            None => None,
            Some(m) => if m.pos < pos || m.pos > input.len() {
                None
            } else {
                let w = skip_ws(rules, input, m.pos, next_budget(rules, pos, m.pos, budget));
                if w.pos < m.pos || w.pos > input.len() {
                    None
                } else {
                    match run_seq(
                        rules,
                        items,
                        k + 1,
                        input,
                        w.pos,
                        next_budget(rules, pos, w.pos, budget),
                    ) {
                        None => None,
                        Some(rest) => Some(
                            Matched { pos: rest.pos, labels: m.labels + w.labels + rest.labels },
                        ),
                    }
                }
            },
        }
    }
}

/// As many occurrences of the expression as match, each followed by
/// whitespace where the grammar has a rule for it. The repetition ends
/// before the first occurrence that fails or that, with the whitespace
/// after it, consumes nothing.
pub open spec fn run_rep(
    rules: Seq<RuleModel>,
    inner: ExprModel,
    input: Seq<u8>,
    pos: nat,
    budget: nat,
) -> Matched
    decreases input.len() - pos, budget, 1nat, inner, 1nat,
{
    if pos > input.len() {
        plain(pos)
    } else {
        match run(rules, inner, input, pos, budget) {
            None => plain(pos),
            Some(m) => if m.pos < pos || m.pos > input.len() {
                plain(pos)
            } else {
                let w = skip_ws(rules, input, m.pos, next_budget(rules, pos, m.pos, budget));
                if w.pos <= pos || w.pos > input.len() {
                    plain(pos)
                } else {
                    let rest = run_rep(rules, inner, input, w.pos, rules.len());
                    Matched { pos: rest.pos, labels: m.labels + w.labels + rest.labels }
                }
            },
        }
    }
}

/// As many occurrences of the whitespace rule as match and consume
/// something; nothing where the grammar has no such rule.
pub open spec fn skip_ws(rules: Seq<RuleModel>, input: Seq<u8>, pos: nat, budget: nat) -> Matched
    decreases input.len() - pos, budget, 0nat,
{
    match find_rule(rules, "WHITESPACE"@) {
        None => plain(pos),
        Some(k) => if pos > input.len() || budget == 0 {
            plain(pos)
        } else {
            match entered(
                rules,
                k,
                pos,
                run(rules, rules[k as int].expr, input, pos, (budget - 1) as nat),
            ) {
                None => plain(pos),
                Some(m) => if m.pos <= pos || m.pos > input.len() {
                    plain(pos)
                } else {
                    let rest = skip_ws(rules, input, m.pos, rules.len());
                    Matched { pos: rest.pos, labels: m.labels + rest.labels }
                },
            }
        },
    }
}

/// The match of the body of a rule that is entered at a position.
pub open spec fn run_body(
    rules: Seq<RuleModel>,
    k: nat,
    input: Seq<u8>,
    pos: nat,
    budget: nat,
) -> Option<Matched> {
    if k >= rules.len() || pos > input.len() || budget == 0 {
        None
    } else {
        run(rules, rules[k as int].expr, input, pos, (budget - 1) as nat)
    }
}

/// The match of a rule at a position.
pub open spec fn run_rule(
    rules: Seq<RuleModel>,
    k: nat,
    input: Seq<u8>,
    pos: nat,
    budget: nat,
) -> Option<Matched> {
    if k >= rules.len() {
        None
    } else {
        entered(rules, k, pos, run_body(rules, k, input, pos, budget))
    }
}

/// A match with more labels in front of its own.
pub open spec fn after(done: Seq<Label>, m: Option<Matched>) -> Option<Matched> {
    match m {
        None => None,
        Some(x) => Some(Matched { pos: x.pos, labels: done + x.labels }),
    }
}

} // verus!
