//! The reduced expression tree and its mathematical model.
use vstd::prelude::*;
use crate::condition::Condition;

verus! {

/// A node of the reduced expression tree.
#[derive(Debug, PartialEq, Eq)]
pub enum FPestExpr {
    /// A reference to a rule, or one of the builtins `SOI`, `EOI`, `NEWLINE`.
    Ident(String),
    /// An exact literal.
    Str(String),
    /// A literal matched without regard to ASCII case.
    Insens(String),
    /// A test on one byte.
    CharacterCondition(Condition),
    /// Negative lookahead.
    NegPred(Box<FPestExpr>),
    /// All items, one after the other.
    Sequence(Vec<FPestExpr>),
    /// The first item that matches.
    Choice(Vec<FPestExpr>),
    /// Repetition; the flag is true when no occurrence is accepted.
    Rep(Box<FPestExpr>, bool),
    /// Zero or one occurrence.
    Opt(Box<FPestExpr>),
}

/// What an expression is, with texts as sequences of characters and lists
/// as sequences.
pub enum ExprModel {
    Ident(Seq<char>),
    Str(Seq<char>),
    Insens(Seq<char>),
    CharacterCondition(Condition),
    NegPred(Box<ExprModel>),
    Sequence(Seq<ExprModel>),
    Choice(Seq<ExprModel>),
    Rep(Box<ExprModel>, bool),
    Opt(Box<ExprModel>),
}

/// The model of an expression.
pub open spec fn model_of(e: &FPestExpr) -> ExprModel
    decreases e,
{
    match e {
        FPestExpr::Ident(name) => ExprModel::Ident(name@),
        FPestExpr::Str(value) => ExprModel::Str(value@),
        FPestExpr::Insens(value) => ExprModel::Insens(value@),
        FPestExpr::CharacterCondition(c) => ExprModel::CharacterCondition(*c),
        FPestExpr::NegPred(inner) => ExprModel::NegPred(Box::new(model_of(inner))),
        FPestExpr::Sequence(items) => ExprModel::Sequence(
            Seq::new(
                items@.len(),
                |i: int|
                    if 0 <= i < items@.len() {
                        model_of(&items@[i])
                    } else {
                        ExprModel::Sequence(Seq::empty())
                    },
            ),
        ),
        FPestExpr::Choice(items) => ExprModel::Choice(
            Seq::new(
                items@.len(),
                |i: int|
                    if 0 <= i < items@.len() {
                        model_of(&items@[i])
                    } else {
                        ExprModel::Sequence(Seq::empty())
                    },
            ),
        ),
        FPestExpr::Rep(inner, empty_accepted) => ExprModel::Rep(
            Box::new(model_of(inner)),
            *empty_accepted,
        ),
        FPestExpr::Opt(inner) => ExprModel::Opt(Box::new(model_of(inner))),
    }
}

impl View for FPestExpr {
    type V = ExprModel;

    open spec fn view(&self) -> ExprModel {
        model_of(self)
    }
}

/// The models of a list of expressions.
pub open spec fn models_of(items: Seq<FPestExpr>) -> Seq<ExprModel> {
    Seq::new(items.len(), |i: int| items[i]@)
}

/// A sequence node is modelled by the models of its items.
pub broadcast proof fn lemma_sequence_model(items: Vec<FPestExpr>)
    ensures
        #[trigger] model_of(&FPestExpr::Sequence(items)) == ExprModel::Sequence(
            models_of(items@),
        ),
{
    let a = model_of(&FPestExpr::Sequence(items))->Sequence_0;
    assert(a =~= models_of(items@));
}

/// A choice node is modelled by the models of its items.
pub broadcast proof fn lemma_choice_model(items: Vec<FPestExpr>)
    ensures
        #[trigger] model_of(&FPestExpr::Choice(items)) == ExprModel::Choice(models_of(items@)),
{
    let a = model_of(&FPestExpr::Choice(items))->Choice_0;
    assert(a =~= models_of(items@));
}

/// A deep copy of a list of expressions.
#[verifier::loop_isolation(false)]
fn copy_items(items: &Vec<FPestExpr>) -> (r: Vec<FPestExpr>)
    ensures
        models_of(r@) == models_of(items@),
    decreases items, 0nat,
{
    let mut r: Vec<FPestExpr> = Vec::new();
    let mut i: usize = 0;
    while i < items.len()
        invariant
            i <= items.len(),
            r@.len() == i,
            forall|j: int| 0 <= j < i ==> (#[trigger] r@[j])@ == items@[j]@,
        decreases items.len() - i,
    {
        proof {
            assert(decreases_to!(*items => items[i as int]));
        }
        let c = items[i].copy();
        r.push(c);
        i += 1;
    }
    assert(models_of(r@) =~= models_of(items@));
    r
}

/// Whether the two lists hold equal expressions at equal places.
#[verifier::loop_isolation(false)]
fn same_items(a: &Vec<FPestExpr>, b: &Vec<FPestExpr>) -> (r: bool)
    ensures
        r == (models_of(a@) == models_of(b@)),
    decreases a, 0nat,
{
    if a.len() != b.len() {
        assert(models_of(a@).len() != models_of(b@).len());
        return false;
    }
    let mut i: usize = 0;
    while i < a.len()
        invariant
            i <= a.len(),
            a.len() == b.len(),
            forall|j: int| 0 <= j < i ==> (#[trigger] a@[j])@ == b@[j]@,
        decreases a.len() - i,
    {
        proof {
            assert(decreases_to!(*a => a[i as int]));
        }
        if !a[i].same(&b[i]) {
            assert(models_of(a@)[i as int] != models_of(b@)[i as int]);
            return false;
        }
        i += 1;
    }
    assert(models_of(a@) =~= models_of(b@));
    true
}

impl FPestExpr {
    /// Structural equality: the two expressions have the same model.
    pub fn same(&self, other: &FPestExpr) -> (r: bool)
        ensures
            r == (self@ == other@),
        decreases self, 1nat,
    {
        broadcast use {lemma_sequence_model, lemma_choice_model};

        match (self, other) {
            (FPestExpr::Ident(a), FPestExpr::Ident(b)) => *a == *b,
            (FPestExpr::Str(a), FPestExpr::Str(b)) => *a == *b,
            (FPestExpr::Insens(a), FPestExpr::Insens(b)) => *a == *b,
            (FPestExpr::CharacterCondition(a), FPestExpr::CharacterCondition(b)) => a.same(b),
            (FPestExpr::NegPred(a), FPestExpr::NegPred(b)) => a.same(b),
            (FPestExpr::Sequence(a), FPestExpr::Sequence(b)) => same_items(a, b),
            (FPestExpr::Choice(a), FPestExpr::Choice(b)) => same_items(a, b),
            (FPestExpr::Rep(a, x), FPestExpr::Rep(b, y)) => *x == *y && a.same(b),
            (FPestExpr::Opt(a), FPestExpr::Opt(b)) => a.same(b),
            _ => false,
        }
    }

    /// A deep copy.
    pub fn copy(&self) -> (r: FPestExpr)
        ensures
            r@ == self@,
        decreases self, 1nat,
    {
        broadcast use {lemma_sequence_model, lemma_choice_model};

        match self {
            FPestExpr::Ident(name) => FPestExpr::Ident(name.clone()),
            FPestExpr::Str(value) => FPestExpr::Str(value.clone()),
            FPestExpr::Insens(value) => FPestExpr::Insens(value.clone()),
            FPestExpr::CharacterCondition(c) => FPestExpr::CharacterCondition(c.copy()),
            FPestExpr::NegPred(inner) => FPestExpr::NegPred(Box::new(inner.copy())),
            FPestExpr::Sequence(items) => FPestExpr::Sequence(copy_items(items)),
            FPestExpr::Choice(items) => FPestExpr::Choice(copy_items(items)),
            FPestExpr::Rep(inner, empty_accepted) => FPestExpr::Rep(
                Box::new(inner.copy()),
                *empty_accepted,
            ),
            FPestExpr::Opt(inner) => FPestExpr::Opt(Box::new(inner.copy())),
        }
    }
}

} // verus!
