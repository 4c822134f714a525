//! Walks over expression trees.
use vstd::prelude::*;
use pest_meta::optimizer::OptimizedExpr;
use crate::expr::{lemma_choice_model, lemma_sequence_model, models_of, ExprModel, FPestExpr};
use crate::raw::raw_size;
use crate::semantics::{builtin_of, Builtin};

verus! {

/// The operands of a chain of binary sequences, from left to right.
pub open spec fn flatten_seq(e: &OptimizedExpr) -> Seq<&OptimizedExpr>
    decreases e,
{
    match e {
        OptimizedExpr::Seq(first, second) => flatten_seq(first) + flatten_seq(second),
        _ => seq![e],
    }
}

/// The alternatives of a chain of binary choices, from left to right.
pub open spec fn flatten_choice(e: &OptimizedExpr) -> Seq<&OptimizedExpr>
    decreases e,
{
    match e {
        OptimizedExpr::Choice(first, second) => flatten_choice(first) + flatten_choice(second),
        _ => seq![e],
    }
}

/// Every operand of a chain of sequences is smaller than the chain.
pub proof fn lemma_flatten_seq_sizes(e: &OptimizedExpr)
    ensures
        flatten_seq(e).len() >= 1,
        forall|i: int|
            0 <= i < flatten_seq(e).len() ==> raw_size(#[trigger] flatten_seq(e)[i]) <= raw_size(
                e,
            ),
        e is Seq ==> forall|i: int|
            0 <= i < flatten_seq(e).len() ==> raw_size(#[trigger] flatten_seq(e)[i]) < raw_size(e),
    decreases e,
{
    match e {
        OptimizedExpr::Seq(first, second) => {
            lemma_flatten_seq_sizes(first);
            lemma_flatten_seq_sizes(second);
        },
        _ => {},
    }
}

/// Every alternative of a chain of choices is smaller than the chain.
pub proof fn lemma_flatten_choice_sizes(e: &OptimizedExpr)
    ensures
        flatten_choice(e).len() >= 1,
        forall|i: int|
            0 <= i < flatten_choice(e).len() ==> raw_size(#[trigger] flatten_choice(e)[i])
                <= raw_size(e),
        e is Choice ==> forall|i: int|
            0 <= i < flatten_choice(e).len() ==> raw_size(#[trigger] flatten_choice(e)[i])
                < raw_size(e),
    decreases e,
{
    match e {
        OptimizedExpr::Choice(first, second) => {
            lemma_flatten_choice_sizes(first);
            lemma_flatten_choice_sizes(second);
        },
        _ => {},
    }
}

/// Appends to `choices` the alternatives of a chain of binary choices.
pub fn list_choices<'a>(expr: &'a OptimizedExpr, choices: &mut Vec<&'a OptimizedExpr>)
    ensures
        final(choices)@ == old(choices)@ + flatten_choice(expr),
    decreases expr,
{
    if let OptimizedExpr::Choice(first, second) = expr {
        list_choices(first, choices);
        list_choices(second, choices);
        assert(choices@ =~= old(choices)@ + flatten_choice(expr));
    } else {
        choices.push(expr);
        assert(choices@ =~= old(choices)@ + flatten_choice(expr));
    }
}

/// Appends to `seq` the operands of a chain of binary sequences.
pub fn list_seq<'a>(expr: &'a OptimizedExpr, seq: &mut Vec<&'a OptimizedExpr>)
    ensures
        final(seq)@ == old(seq)@ + flatten_seq(expr),
    decreases expr,
{
    if let OptimizedExpr::Seq(first, second) = expr {
        list_seq(first, seq);
        list_seq(second, seq);
        assert(seq@ =~= old(seq)@ + flatten_seq(expr));
    } else {
        seq.push(expr);
        assert(seq@ =~= old(seq)@ + flatten_seq(expr));
    }
}

/// The nodes of an expression, every node after the nodes below it.
pub open spec fn all_exprs(e: ExprModel) -> Seq<ExprModel>
    decreases e,
{
    match e {
        ExprModel::NegPred(inner) => all_exprs(*inner).push(e),
        ExprModel::Opt(inner) => all_exprs(*inner).push(e),
        ExprModel::Rep(inner, _) => all_exprs(*inner).push(e),
        ExprModel::Sequence(items) => all_exprs_of(items).push(e),
        ExprModel::Choice(items) => all_exprs_of(items).push(e),
        _ => seq![e],
    }
}

/// The nodes of the expressions of a list, one expression after the
/// other.
pub open spec fn all_exprs_of(items: Seq<ExprModel>) -> Seq<ExprModel>
    decreases items,
{
    if items.len() == 0 {
        Seq::empty()
    } else {
        all_exprs_of(items.drop_last()) + all_exprs(items.last())
    }
}

/// The models of a list of borrowed expressions.
pub open spec fn borrowed_models(items: Seq<&FPestExpr>) -> Seq<ExprModel> {
    Seq::new(items.len(), |i: int| items[i]@)
}

#[verifier::loop_isolation(false)]
fn list_exprs_of<'a>(items: &'a Vec<FPestExpr>, exprs: &mut Vec<&'a FPestExpr>)
    ensures
        borrowed_models(final(exprs)@) == borrowed_models(old(exprs)@) + all_exprs_of(
            models_of(items@),
        ),
    decreases items, 0nat,
{
    let ghost all = models_of(items@);
    let mut i: usize = 0;
    assert(borrowed_models(exprs@) + all_exprs_of(all.take(0)) =~= borrowed_models(exprs@));
    while i < items.len()
        invariant
            i <= items.len(),
            borrowed_models(exprs@) == borrowed_models(old(exprs)@) + all_exprs_of(
                all.take(i as int),
            ),
        decreases items.len() - i,
    {
        proof {
            assert(decreases_to!(*items => items[i as int]));
            assert(all.take(i + 1).drop_last() =~= all.take(i as int));
            assert(all.take(i + 1).last() == items@[i as int]@);
        }
        let ghost before = borrowed_models(exprs@);
        let mut below = list_exprs(&items[i]);
        let ghost added = borrowed_models(below@);
        exprs.append(&mut below);
        proof {
            assert(borrowed_models(exprs@) =~= before + added);
            assert(before + added =~= borrowed_models(old(exprs)@) + (all_exprs_of(
                all.take(i as int),
            ) + added));
        }
        i += 1;
    }
    assert(all.take(items.len() as int) =~= all);
}

/// The nodes of an expression, every node after the nodes below it.
pub fn list_exprs(expr: &FPestExpr) -> (r: Vec<&FPestExpr>)
    ensures
        borrowed_models(r@) == all_exprs(expr@),
    decreases expr, 1nat,
{
    broadcast use {lemma_sequence_model, lemma_choice_model};

    let mut exprs: Vec<&FPestExpr> = Vec::new();
    assert(borrowed_models(exprs@) =~= Seq::<ExprModel>::empty());
    match expr {
        FPestExpr::NegPred(inner) => {
            exprs = list_exprs(inner);
        },
        FPestExpr::Opt(inner) => {
            exprs = list_exprs(inner);
        },
        FPestExpr::Rep(inner, _) => {
            exprs = list_exprs(inner);
        },
        FPestExpr::Sequence(items) => {
            list_exprs_of(items, &mut exprs);
            assert(Seq::<ExprModel>::empty() + all_exprs_of(models_of(items@)) =~= all_exprs_of(
                models_of(items@),
            ));
        },
        FPestExpr::Choice(items) => {
            list_exprs_of(items, &mut exprs);
            assert(Seq::<ExprModel>::empty() + all_exprs_of(models_of(items@)) =~= all_exprs_of(
                models_of(items@),
            ));
        },
        FPestExpr::Ident(_) => {},
        FPestExpr::Str(_) => {},
        FPestExpr::Insens(_) => {},
        FPestExpr::CharacterCondition(_) => {},
    }
    let ghost before = borrowed_models(exprs@);
    exprs.push(expr);
    assert(borrowed_models(exprs@) =~= before.push(expr@));
    exprs
}

/// Whether the procedures of an expression take the label list: an
/// expression that refers to a rule does; a sequence and a repetition do
/// where the grammar has a whitespace rule; and every expression does
/// where something below it does.
pub open spec fn touches_idents(e: ExprModel, has_whitespace: bool) -> bool
    decreases e, 0nat,
{
    match e {
        ExprModel::Ident(name) => builtin_of(name) is None,
        ExprModel::NegPred(inner) => touches_idents(*inner, has_whitespace),
        ExprModel::Opt(inner) => touches_idents(*inner, has_whitespace),
        ExprModel::Sequence(items) => has_whitespace || any_touches(items, 0, has_whitespace),
        ExprModel::Choice(items) => any_touches(items, 0, has_whitespace),
        ExprModel::Rep(inner, _) => has_whitespace || touches_idents(*inner, has_whitespace),
        ExprModel::Str(_) => false,
        ExprModel::Insens(_) => false,
        ExprModel::CharacterCondition(_) => false,
    }
}

/// Whether the procedures of an expression of the list, from `k` on, take
/// the label list.
pub open spec fn any_touches(items: Seq<ExprModel>, k: nat, has_whitespace: bool) -> bool
    decreases items, items.len() - k,
{
    if k >= items.len() {
        false
    } else {
        touches_idents(items[k as int], has_whitespace) || any_touches(
            items,
            k + 1,
            has_whitespace,
        )
    }
}

#[verifier::loop_isolation(false)]
fn any_contains_idents(items: &Vec<FPestExpr>, has_whitespace: bool) -> (r: bool)
    ensures
        r == any_touches(models_of(items@), 0, has_whitespace),
    decreases items, 0nat,
{
    let ghost all = models_of(items@);
    let mut i: usize = 0;
    while i < items.len()
        invariant
            i <= items.len(),
            any_touches(all, 0, has_whitespace) == any_touches(all, i as nat, has_whitespace),
        decreases items.len() - i,
    {
        proof {
            assert(decreases_to!(*items => items[i as int]));
            assert(all[i as int] == items@[i as int]@);
        }
        if contains_idents(&items[i], has_whitespace) {
            return true;
        }
        i += 1;
    }
    false
}

/// Whether the procedures of an expression take the label list.
pub fn contains_idents(expr: &FPestExpr, has_whitespace: bool) -> (r: bool)
    ensures
        r == touches_idents(expr@, has_whitespace),
    decreases expr, 1nat,
{
    broadcast use {lemma_sequence_model, lemma_choice_model};

    match expr {
        FPestExpr::Ident(ident) => Builtin::from_name(ident.as_str()).is_none(),
        FPestExpr::NegPred(inner) => contains_idents(inner, has_whitespace),
        FPestExpr::Opt(inner) => contains_idents(inner, has_whitespace),
        FPestExpr::Sequence(items) => has_whitespace || any_contains_idents(
            items,
            has_whitespace,
        ),
        FPestExpr::Choice(items) => any_contains_idents(items, has_whitespace),
        FPestExpr::Rep(inner, _) => has_whitespace || contains_idents(inner, has_whitespace),
        FPestExpr::Str(_) => false,
        FPestExpr::Insens(_) => false,
        FPestExpr::CharacterCondition(_) => false,
    }
}

} // verus!
