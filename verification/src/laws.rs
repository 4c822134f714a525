//! What holds of every grammar, every expression and every input.
use vstd::prelude::*;
use crate::diagnosis::full_outcome;
use crate::error::{Error, ErrorModel};
use crate::expr::ExprModel;
use crate::forest::lemma_run_rule_sound;
use crate::ident::{indices, lemma_placed_nested, lemma_walk_visits_all, nested, walk};
use crate::pattern_outer::{placed, quick_outcome, Ident};
use crate::semantics::{
    has_whitespace,
    next_budget,
    run,
    run_choice,
    run_rep,
    run_repetition,
    run_rule,
    run_seq,
    skip_ws,
    Matched,
    RuleModel,
};
use crate::tree_inspection::{any_touches, touches_idents};

verus! {

/// The quick and the full procedure of a node agree: on the same list,
/// for the same match, one succeeds exactly where the other does, and
/// then both return the same position and leave the same list.
pub proof fn lemma_quick_full_agree(
    m: Option<Matched>,
    error: ErrorModel,
    quick: Option<usize>,
    full: Result<usize, Error>,
    before: Seq<(Ident, usize)>,
    after_quick: Seq<(Ident, usize)>,
    after_full: Seq<(Ident, usize)>,
)
    requires
        quick_outcome(m, quick, before, after_quick),
        full_outcome(m, error, full, before, after_full),
    ensures
        quick is Some <==> full is Ok,
        quick matches Some(p) ==> full matches Ok(q) && p == q,
        after_quick == after_full,
{
}

/// After a successful parse with a rule, the walk from the top of the
/// label list down its nodes visits every entry exactly once, in list
/// order. Where the rule is not silent, the first entry is the root: its
/// label spans what was consumed, and all other entries stand below it.
pub proof fn lemma_parse_visits_all(
    rules: Seq<RuleModel>,
    k: nat,
    input: Seq<u8>,
    budget: nat,
    m: Matched,
)
    requires
        run_rule(rules, k, input, 0, budget) == Some(m),
        m.labels.len() <= usize::MAX,
        input.len() <= usize::MAX,
    ensures
        nested(placed(m.labels, 0)),
        walk(placed(m.labels, 0), 0, m.labels.len() as int) == indices(0, m.labels.len() as int),
        !rules[k as int].silent ==> m.labels.len() > 0 && placed(m.labels, 0)[0].1
            == m.labels.len() && m.labels[0].start == 0 && m.labels[0].end == m.pos,
{
    lemma_run_rule_sound(rules, k, input, 0, budget);
    lemma_placed_nested(m.labels, input.len(), rules.len());
    let list = placed(m.labels, 0);
    lemma_walk_visits_all(list, 0, list.len() as int);
}

/// A choice leaves what the alternative that matched leaves: all the
/// alternatives before that one fail, and the match of the choice is the
/// match of that one. Where every alternative fails, so does the choice.
/// As a failed procedure leaves the list as it was, the list holds after
/// the choice what it held before and the labels of that alternative.
pub proof fn lemma_choice_is_first_match(
    rules: Seq<RuleModel>,
    items: Seq<ExprModel>,
    k: nat,
    input: Seq<u8>,
    pos: nat,
    budget: nat,
)
    requires
        pos <= input.len(),
        k <= items.len(),
    ensures
        match run_choice(rules, items, k, input, pos, budget) {
            Some(m) => exists|w: int|
                k <= w < items.len() && #[trigger] run(rules, items[w], input, pos, budget)
                    == Some(m) && forall|j: int|
                    k <= j < w ==> (#[trigger] run(rules, items[j], input, pos, budget)) is None,
            None => forall|j: int|
                k <= j < items.len() ==> (#[trigger] run(rules, items[j], input, pos, budget))
                    is None,
        },
    decreases items.len() - k,
{
    if k < items.len() {
        match run(rules, items[k as int], input, pos, budget) {
            Some(m) => {
                assert(run(rules, items[k as int], input, pos, budget) == Some(m));
            },
            None => {
                lemma_choice_is_first_match(rules, items, k + 1, input, pos, budget);
                match run_choice(rules, items, k + 1, input, pos, budget) {
                    Some(m) => {
                        let w = choose|w: int|
                            k + 1 <= w < items.len() && #[trigger] run(
                                rules,
                                items[w],
                                input,
                                pos,
                                budget,
                            ) == Some(m) && forall|j: int|
                                k + 1 <= j < w ==> (#[trigger] run(
                                    rules,
                                    items[j],
                                    input,
                                    pos,
                                    budget,
                                )) is None;
                        assert(run(rules, items[w], input, pos, budget) == Some(m));
                    },
                    None => {},
                }
            },
        }
    }
}

/// Where none of the items from `k` on takes the label list, none of the
/// items does that come later.
proof fn lemma_none_touches(items: Seq<ExprModel>, k: nat, j: nat, whitespace: bool)
    requires
        k <= j < items.len(),
        !any_touches(items, k, whitespace),
    ensures
        !touches_idents(items[j as int], whitespace),
        !any_touches(items, j + 1, whitespace),
    decreases j - k,
{
    if k < j {
        lemma_none_touches(items, k + 1, j, whitespace);
    }
}

/// An expression whose procedures do not take the label list leaves no
/// label: the list may be kept from such procedures.
pub proof fn lemma_untouched_leaves_no_labels(
    rules: Seq<RuleModel>,
    e: ExprModel,
    input: Seq<u8>,
    pos: nat,
    budget: nat,
)
    requires
        !touches_idents(e, has_whitespace(rules)),
    ensures
        run(rules, e, input, pos, budget) matches Some(m) ==> m.labels.len() == 0,
    decreases input.len() - pos, budget, 1nat, e, 0nat,
{
    if pos <= input.len() {
        match e {
            ExprModel::Opt(inner) => {
                lemma_untouched_leaves_no_labels(rules, *inner, input, pos, budget);
            },
            ExprModel::Sequence(items) => {
                lemma_untouched_items(rules, items, 0, input, pos, budget);
            },
            ExprModel::Choice(items) => {
                lemma_untouched_alternatives(rules, items, 0, input, pos, budget);
            },
            ExprModel::Rep(inner, empty_accepted) => {
                match *inner {
                    ExprModel::CharacterCondition(_) => {},
                    _ => {
                        lemma_untouched_repetition(
                            rules,
                            *inner,
                            empty_accepted,
                            input,
                            pos,
                            budget,
                        );
                    },
                }
            },
            _ => {},
        }
    }
}

proof fn lemma_untouched_alternatives(
    rules: Seq<RuleModel>,
    items: Seq<ExprModel>,
    k: nat,
    input: Seq<u8>,
    pos: nat,
    budget: nat,
)
    requires
        k <= items.len(),
        !any_touches(items, k, has_whitespace(rules)),
    ensures
        run_choice(rules, items, k, input, pos, budget) matches Some(m) ==> m.labels.len() == 0,
    decreases input.len() - pos, budget, 1nat, items, items.len() - k,
{
    if pos <= input.len() && k < items.len() {
        lemma_none_touches(items, k, k, has_whitespace(rules));
        lemma_untouched_leaves_no_labels(rules, items[k as int], input, pos, budget);
        if run(rules, items[k as int], input, pos, budget) is None {
            lemma_untouched_alternatives(rules, items, k + 1, input, pos, budget);
        }
    }
}

proof fn lemma_untouched_items(
    rules: Seq<RuleModel>,
    items: Seq<ExprModel>,
    k: nat,
    input: Seq<u8>,
    pos: nat,
    budget: nat,
)
    requires
        !has_whitespace(rules),
        k <= items.len(),
        !any_touches(items, k, false),
    ensures
        run_seq(rules, items, k, input, pos, budget) matches Some(m) ==> m.labels.len() == 0,
    decreases input.len() - pos, budget, 1nat, items, items.len() - k,
{
    if pos <= input.len() && k < items.len() {
        lemma_none_touches(items, k, k, false);
        lemma_untouched_leaves_no_labels(rules, items[k as int], input, pos, budget);
        match run(rules, items[k as int], input, pos, budget) {
            None => {},
            Some(m) => {
                if pos <= m.pos <= input.len() {
                    let w = skip_ws(rules, input, m.pos, next_budget(rules, pos, m.pos, budget));
                    lemma_untouched_items(
                        rules,
                        items,
                        k + 1,
                        input,
                        w.pos,
                        next_budget(rules, pos, w.pos, budget),
                    );
                }
            },
        }
    }
}

proof fn lemma_untouched_rep(
    rules: Seq<RuleModel>,
    inner: ExprModel,
    input: Seq<u8>,
    pos: nat,
    budget: nat,
)
    requires
        !has_whitespace(rules),
        !touches_idents(inner, false),
    ensures
        run_rep(rules, inner, input, pos, budget).labels.len() == 0,
    decreases input.len() - pos, budget, 1nat, inner, 1nat,
{
    if pos <= input.len() {
        lemma_untouched_leaves_no_labels(rules, inner, input, pos, budget);
        match run(rules, inner, input, pos, budget) {
            None => {},
            Some(m) => {
                if pos <= m.pos <= input.len() {
                    let w = skip_ws(rules, input, m.pos, next_budget(rules, pos, m.pos, budget));
                    if pos < w.pos <= input.len() {
                        lemma_untouched_rep(rules, inner, input, w.pos, rules.len());
                    }
                }
            },
        }
    }
}

proof fn lemma_untouched_repetition(
    rules: Seq<RuleModel>,
    inner: ExprModel,
    empty_accepted: bool,
    input: Seq<u8>,
    pos: nat,
    budget: nat,
)
    requires
        !has_whitespace(rules),
        !touches_idents(inner, false),
    ensures
        run_repetition(rules, inner, empty_accepted, input, pos, budget) matches Some(m)
            ==> m.labels.len() == 0,
    decreases input.len() - pos, budget, 1nat, inner, 2nat,
{
    if pos <= input.len() {
        if empty_accepted {
            lemma_untouched_rep(rules, inner, input, pos, budget);
        } else {
            lemma_untouched_leaves_no_labels(rules, inner, input, pos, budget);
            match run(rules, inner, input, pos, budget) {
                None => {},
                Some(first) => {
                    if pos <= first.pos <= input.len() {
                        let w = skip_ws(
                            rules,
                            input,
                            first.pos,
                            next_budget(rules, pos, first.pos, budget),
                        );
                        lemma_untouched_rep(
                            rules,
                            inner,
                            input,
                            w.pos,
                            next_budget(rules, pos, w.pos, budget),
                        );
                    }
                },
            }
        }
    }
}

} // verus!
