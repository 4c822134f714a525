//! The shape of the labels that a match leaves.
use vstd::prelude::*;
use crate::expr::ExprModel;
use crate::semantics::{
    find_from,
    find_rule,
    next_budget,
    run,
    run_choice,
    run_rep,
    run_repetition,
    run_rule,
    run_seq,
    skip_ws,
    Label,
    Matched,
    RuleModel,
};

verus! {

/// The labels are the nodes of a forest in the order in which a walk from
/// each root down meets them: the labels below a label follow it
/// directly, and no label reaches past the end of a label that it stands
/// below.
pub open spec fn forest(labels: Seq<Label>) -> bool {
    &&& forall|i: int|
        0 <= i < labels.len() ==> 1 <= (#[trigger] labels[i]).size && i + labels[i].size
            <= labels.len()
    &&& forall|i: int, j: int|
        0 <= i < j < labels.len() && j < i + (#[trigger] labels[i]).size ==> j + (
        #[trigger] labels[j]).size <= i + labels[i].size
}

/// Every label names a rule of the grammar and spans bytes between the
/// two positions.
pub open spec fn spans_within(labels: Seq<Label>, lo: nat, hi: nat, rules: nat) -> bool {
    forall|i: int|
        0 <= i < labels.len() ==> lo <= (#[trigger] labels[i]).start <= labels[i].end <= hi
            && labels[i].rule < rules
}

/// A match that started at `pos` ends inside the input and leaves a
/// forest of labels over the bytes that it consumed.
pub open spec fn sound(m: Matched, pos: nat, len: nat, rules: nat) -> bool {
    &&& pos <= m.pos <= len
    &&& forest(m.labels)
    &&& spans_within(m.labels, pos, m.pos, rules)
}

/// Two forests, one after the other, are a forest.
pub proof fn lemma_forest_concat(a: Seq<Label>, b: Seq<Label>)
    requires
        forest(a),
        forest(b),
    ensures
        forest(a + b),
{
    let c = a + b;
    assert forall|i: int| 0 <= i < c.len() implies 1 <= (#[trigger] c[i]).size && i + c[i].size
        <= c.len() by {
        if i < a.len() {
            assert(c[i] == a[i]);
        } else {
            assert(c[i] == b[i - a.len()]);
        }
    }
    assert forall|i: int, j: int|
        0 <= i < j < c.len() && j < i + (#[trigger] c[i]).size implies j + (#[trigger] c[j]).size
        <= i + c[i].size by {
        if i < a.len() {
            assert(c[i] == a[i]);
            assert(j < a.len());
            assert(c[j] == a[j]);
        } else {
            assert(c[i] == b[i - a.len()]);
            assert(c[j] == b[j - a.len()]);
        }
    }
}

/// A label in front of a forest that it covers entirely is a forest.
pub proof fn lemma_forest_wrap(top: Label, below: Seq<Label>)
    requires
        forest(below),
        top.size == 1 + below.len(),
    ensures
        forest(seq![top] + below),
{
    let c = seq![top] + below;
    assert forall|i: int| 0 <= i < c.len() implies 1 <= (#[trigger] c[i]).size && i + c[i].size
        <= c.len() by {
        if i > 0 {
            assert(c[i] == below[i - 1]);
        }
    }
    assert forall|i: int, j: int|
        0 <= i < j < c.len() && j < i + (#[trigger] c[i]).size implies j + (#[trigger] c[j]).size
        <= i + c[i].size by {
        assert(c[j] == below[j - 1]);
        if i > 0 {
            assert(c[i] == below[i - 1]);
        }
    }
}

/// Labels within a span are within any wider span.
pub proof fn lemma_spans_widen(labels: Seq<Label>, lo: nat, hi: nat, lo2: nat, hi2: nat, rules: nat)
    requires
        spans_within(labels, lo, hi, rules),
        lo2 <= lo,
        hi <= hi2,
    ensures
        spans_within(labels, lo2, hi2, rules),
{
}

/// Two runs of labels within a span, one after the other, are within it.
pub proof fn lemma_spans_concat(a: Seq<Label>, b: Seq<Label>, lo: nat, hi: nat, rules: nat)
    requires
        spans_within(a, lo, hi, rules),
        spans_within(b, lo, hi, rules),
    ensures
        spans_within(a + b, lo, hi, rules),
{
    let c = a + b;
    assert forall|i: int| 0 <= i < c.len() implies lo <= (#[trigger] c[i]).start <= c[i].end <= hi
        && c[i].rule < rules by {
        if i < a.len() {
            assert(c[i] == a[i]);
        } else {
            assert(c[i] == b[i - a.len()]);
        }
    }
}

/// Two sound matches, one after the other, are a sound match.
pub proof fn lemma_sound_then(a: Matched, b: Matched, pos: nat, len: nat, rules: nat)
    requires
        sound(a, pos, len, rules),
        sound(b, a.pos, len, rules),
    ensures
        sound(Matched { pos: b.pos, labels: a.labels + b.labels }, pos, len, rules),
{
    lemma_forest_concat(a.labels, b.labels);
    lemma_spans_widen(a.labels, pos, a.pos, pos, b.pos, rules);
    lemma_spans_widen(b.labels, a.pos, b.pos, pos, b.pos, rules);
    lemma_spans_concat(a.labels, b.labels, pos, b.pos, rules);
}

/// A rule that is found is a rule of the grammar.
pub proof fn lemma_find_bound(rules: Seq<RuleModel>, name: Seq<char>, from: nat)
    ensures
        find_from(rules, name, from) matches Some(k) ==> from <= k < rules.len() && rules[k as int].name
            == name,
    decreases rules.len() - from,
{
    if from < rules.len() && rules[from as int].name != name {
        lemma_find_bound(rules, name, from + 1);
    }
}

/// Every match of an expression is sound.
pub proof fn lemma_run_sound(
    rules: Seq<RuleModel>,
    e: ExprModel,
    input: Seq<u8>,
    pos: nat,
    budget: nat,
)
    ensures
        run(rules, e, input, pos, budget) matches Some(m) ==> sound(
            m,
            pos,
            input.len(),
            rules.len(),
        ),
    decreases input.len() - pos, budget, 1nat, e, 0nat,
{
    if pos <= input.len() {
        match e {
            ExprModel::Str(_) => {},
            ExprModel::Insens(_) => {},
            ExprModel::CharacterCondition(_) => {},
            ExprModel::Ident(name) => {
                if crate::semantics::builtin_of(name) is None {
                    lemma_find_bound(rules, name, 0);
                    match find_rule(rules, name) {
                        None => {},
                        Some(k) => {
                            if budget > 0 {
                                lemma_run_sound(
                                    rules,
                                    rules[k as int].expr,
                                    input,
                                    pos,
                                    (budget - 1) as nat,
                                );
                                if run_rule(rules, k, input, pos, budget) is Some {
                                    lemma_entered_sound(rules, k, input, pos, budget);
                                }
                            }
                        },
                    }
                }
            },
            ExprModel::NegPred(inner) => {},
            ExprModel::Opt(inner) => {
                lemma_run_sound(rules, *inner, input, pos, budget);
            },
            ExprModel::Choice(items) => {
                lemma_run_choice_sound(rules, items, 0, input, pos, budget);
            },
            ExprModel::Sequence(items) => {
                lemma_run_seq_sound(rules, items, 0, input, pos, budget);
            },
            ExprModel::Rep(inner, empty_accepted) => {
                match *inner {
                    ExprModel::CharacterCondition(c) => {
                        crate::pattern_expr_rep_character::lemma_scan_bound(c, input, pos);
                    },
                    _ => {
                        lemma_run_repetition_sound(
                            rules,
                            *inner,
                            empty_accepted,
                            input,
                            pos,
                            budget,
                        );
                    },
                }
            },
        }
    }
}

/// What a rule makes of a sound match of its body is sound.
pub proof fn lemma_entered_sound(
    rules: Seq<RuleModel>,
    k: nat,
    input: Seq<u8>,
    pos: nat,
    budget: nat,
)
    requires
        k < rules.len(),
        run_rule(rules, k, input, pos, budget) is Some,
        sound(
            run(rules, rules[k as int].expr, input, pos, (budget - 1) as nat)->0,
            pos,
            input.len(),
            rules.len(),
        ),
    ensures
        sound(run_rule(rules, k, input, pos, budget)->0, pos, input.len(), rules.len()),
{
    let body = run(rules, rules[k as int].expr, input, pos, (budget - 1) as nat)->0;
    if !rules[k as int].silent {
        let top = Label { rule: k, start: pos, end: body.pos, size: 1 + body.labels.len() };
        lemma_forest_wrap(top, body.labels);
        let all = seq![top] + body.labels;
        assert forall|i: int| 0 <= i < all.len() implies pos <= (#[trigger] all[i]).start
            <= all[i].end <= body.pos && all[i].rule < rules.len() by {
            if i > 0 {
                assert(all[i] == body.labels[i - 1]);
            }
        }
    }
}

/// Every match of a rule is sound.
pub proof fn lemma_run_rule_sound(
    rules: Seq<RuleModel>,
    k: nat,
    input: Seq<u8>,
    pos: nat,
    budget: nat,
)
    ensures
        run_rule(rules, k, input, pos, budget) matches Some(m) ==> sound(
            m,
            pos,
            input.len(),
            rules.len(),
        ),
{
    if run_rule(rules, k, input, pos, budget) is Some {
        lemma_run_sound(rules, rules[k as int].expr, input, pos, (budget - 1) as nat);
        lemma_entered_sound(rules, k, input, pos, budget);
    }
}

/// Every match of a choice is sound.
pub proof fn lemma_run_choice_sound(
    rules: Seq<RuleModel>,
    items: Seq<ExprModel>,
    k: nat,
    input: Seq<u8>,
    pos: nat,
    budget: nat,
)
    ensures
        run_choice(rules, items, k, input, pos, budget) matches Some(m) ==> sound(
            m,
            pos,
            input.len(),
            rules.len(),
        ),
    decreases input.len() - pos, budget, 1nat, items, items.len() - k,
{
    if pos <= input.len() && k < items.len() {
        lemma_run_sound(rules, items[k as int], input, pos, budget);
        if run(rules, items[k as int], input, pos, budget) is None {
            lemma_run_choice_sound(rules, items, k + 1, input, pos, budget);
        }
    }
}

/// Every match of a sequence is sound.
pub proof fn lemma_run_seq_sound(
    rules: Seq<RuleModel>,
    items: Seq<ExprModel>,
    k: nat,
    input: Seq<u8>,
    pos: nat,
    budget: nat,
)
    ensures
        run_seq(rules, items, k, input, pos, budget) matches Some(m) ==> sound(
            m,
            pos,
            input.len(),
            rules.len(),
        ),
    decreases input.len() - pos, budget, 1nat, items, items.len() - k,
{
    if pos <= input.len() && k < items.len() {
        lemma_run_sound(rules, items[k as int], input, pos, budget);
        match run(rules, items[k as int], input, pos, budget) {
            None => {},
            Some(m) => {
                let b1 = next_budget(rules, pos, m.pos, budget);
                lemma_skip_ws_sound(rules, input, m.pos, b1);
                let w = skip_ws(rules, input, m.pos, b1);
                let b2 = next_budget(rules, pos, w.pos, budget);
                lemma_run_seq_sound(rules, items, k + 1, input, w.pos, b2);
                match run_seq(rules, items, k + 1, input, w.pos, b2) {
                    None => {},
                    Some(rest) => {
                        lemma_sound_then(m, w, pos, input.len(), rules.len());
                        lemma_sound_then(
                            Matched { pos: w.pos, labels: m.labels + w.labels },
                            rest,
                            pos,
                            input.len(),
                            rules.len(),
                        );
                    },
                }
            },
        }
    }
}

/// Every repetition is sound.
pub proof fn lemma_run_rep_sound(
    rules: Seq<RuleModel>,
    inner: ExprModel,
    input: Seq<u8>,
    pos: nat,
    budget: nat,
)
    requires
        pos <= input.len(),
    ensures
        sound(run_rep(rules, inner, input, pos, budget), pos, input.len(), rules.len()),
    decreases input.len() - pos, budget, 1nat, inner, 1nat,
{
    lemma_run_sound(rules, inner, input, pos, budget);
    match run(rules, inner, input, pos, budget) {
        None => {},
        Some(m) => {
            let b1 = next_budget(rules, pos, m.pos, budget);
            lemma_skip_ws_sound(rules, input, m.pos, b1);
            let w = skip_ws(rules, input, m.pos, b1);
            if w.pos > pos {
                lemma_run_rep_sound(rules, inner, input, w.pos, rules.len());
                let rest = run_rep(rules, inner, input, w.pos, rules.len());
                lemma_sound_then(m, w, pos, input.len(), rules.len());
                lemma_sound_then(
                    Matched { pos: w.pos, labels: m.labels + w.labels },
                    rest,
                    pos,
                    input.len(),
                    rules.len(),
                );
            }
        },
    }
}

/// Every match of a repetition is sound.
pub proof fn lemma_run_repetition_sound(
    rules: Seq<RuleModel>,
    inner: ExprModel,
    empty_accepted: bool,
    input: Seq<u8>,
    pos: nat,
    budget: nat,
)
    ensures
        run_repetition(rules, inner, empty_accepted, input, pos, budget) matches Some(m)
            ==> sound(m, pos, input.len(), rules.len()),
    decreases input.len() - pos, budget, 1nat, inner, 2nat,
{
    if pos <= input.len() {
        if empty_accepted {
            lemma_run_rep_sound(rules, inner, input, pos, budget);
        } else {
            lemma_run_sound(rules, inner, input, pos, budget);
            match run(rules, inner, input, pos, budget) {
                None => {},
                Some(first) => {
                    let b1 = next_budget(rules, pos, first.pos, budget);
                    lemma_skip_ws_sound(rules, input, first.pos, b1);
                    let w = skip_ws(rules, input, first.pos, b1);
                    let b2 = next_budget(rules, pos, w.pos, budget);
                    lemma_run_rep_sound(rules, inner, input, w.pos, b2);
                    lemma_sound_then(first, w, pos, input.len(), rules.len());
                    lemma_sound_then(
                        Matched { pos: w.pos, labels: first.labels + w.labels },
                        run_rep(rules, inner, input, w.pos, b2),
                        pos,
                        input.len(),
                        rules.len(),
                    );
                },
            }
        }
    }
}

/// Skipping whitespace is sound.
pub proof fn lemma_skip_ws_sound(rules: Seq<RuleModel>, input: Seq<u8>, pos: nat, budget: nat)
    requires
        pos <= input.len(),
    ensures
        sound(skip_ws(rules, input, pos, budget), pos, input.len(), rules.len()),
    decreases input.len() - pos, budget, 0nat,
{
    lemma_find_bound(rules, "WHITESPACE"@, 0);
    match find_rule(rules, "WHITESPACE"@) {
        None => {},
        Some(k) => {
            if budget > 0 {
                lemma_run_sound(rules, rules[k as int].expr, input, pos, (budget - 1) as nat);
                match run_rule(rules, k, input, pos, budget) {
                    None => {},
                    Some(m) => {
                        lemma_entered_sound(rules, k, input, pos, budget);
                        if m.pos > pos {
                            lemma_skip_ws_sound(rules, input, m.pos, rules.len());
                            lemma_sound_then(
                                m,
                                skip_ws(rules, input, m.pos, rules.len()),
                                pos,
                                input.len(),
                                rules.len(),
                            );
                        }
                    },
                }
            }
        },
    }
}

/// A match ends between where it started and the end of the input.
pub proof fn lemma_run_bounds(
    rules: Seq<RuleModel>,
    e: ExprModel,
    input: Seq<u8>,
    pos: nat,
    budget: nat,
)
    ensures
        run(rules, e, input, pos, budget) matches Some(m) ==> pos <= m.pos <= input.len(),
{
    lemma_run_sound(rules, e, input, pos, budget);
}

/// Skipping whitespace ends between where it started and the end of the
/// input.
pub proof fn lemma_skip_ws_bounds(rules: Seq<RuleModel>, input: Seq<u8>, pos: nat, budget: nat)
    requires
        pos <= input.len(),
    ensures
        pos <= skip_ws(rules, input, pos, budget).pos <= input.len(),
{
    lemma_skip_ws_sound(rules, input, pos, budget);
}

} // verus!
