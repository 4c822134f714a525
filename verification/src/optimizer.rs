//! Lowers grammar expressions into the reduced expression tree.
use vstd::prelude::*;
use pest_meta::optimizer::OptimizedExpr;
use crate::condition::{class_of_name, Class, Condition};
use crate::expr::{lemma_choice_model, lemma_sequence_model, models_of, ExprModel, FPestExpr};
use crate::raw::{bytes_of, raw_equal, raw_same, raw_size};
use crate::tree_inspection::{
    flatten_choice,
    flatten_seq,
    lemma_flatten_choice_sizes,
    lemma_flatten_seq_sizes,
    list_choices,
    list_seq,
};

verus! {

/// Reported for a grammar expression that holds a construct which the
/// reduced tree cannot express.
#[derive(Debug, Clone, Copy, PartialEq, Eq)]
pub struct Unsupported;

/// The idiom `x ~ x*`, which stands for one or more `x`.
pub open spec fn is_one_or_more(first: &OptimizedExpr, second: &OptimizedExpr) -> bool {
    match second {
        OptimizedExpr::Rep(inner) => raw_equal(first, inner),
        _ => false,
    }
}

/// Whether every construct of the expression can be lowered.
pub open spec fn supported(e: &OptimizedExpr) -> bool
    decreases e, 0nat,
{
    match e {
        OptimizedExpr::Str(_) => true,
        OptimizedExpr::Insens(_) => true,
        OptimizedExpr::Ident(_) => true,
        OptimizedExpr::Range(a, b) => bytes_of(a@).len() == 1 && bytes_of(b@).len() == 1,
        OptimizedExpr::NegPred(inner) => supported(inner),
        OptimizedExpr::Opt(inner) => supported(inner),
        OptimizedExpr::Rep(inner) => supported(inner),
        OptimizedExpr::Seq(first, second) => if is_one_or_more(first, second) {
            supported(first)
        } else {
            supported_seq(first) && supported_seq(second)
        },
        OptimizedExpr::Choice(first, second) => supported_choice(first) && supported_choice(
            second,
        ),
        _ => false,
    }
}

/// Whether every operand of a chain of sequences can be lowered.
pub open spec fn supported_seq(e: &OptimizedExpr) -> bool
    decreases e, 1nat,
{
    match e {
        OptimizedExpr::Seq(first, second) => supported_seq(first) && supported_seq(second),
        _ => supported(e),
    }
}

/// Whether every alternative of a chain of choices can be lowered.
pub open spec fn supported_choice(e: &OptimizedExpr) -> bool
    decreases e, 1nat,
{
    match e {
        OptimizedExpr::Choice(first, second) => supported_choice(first) && supported_choice(
            second,
        ),
        _ => supported(e),
    }
}

/// What two neighbours in a list become when they can be fused into one
/// node.
///
/// In a sequence, a negative lookahead on a byte test `p` followed by a
/// byte test `q` is the single test `!p && q`; followed by a negative
/// lookahead on `q` it is a negative lookahead on `p || q`. In a choice,
/// two byte tests `p` and `q` are the single test `p || q`.
pub open spec fn merged(a: ExprModel, b: ExprModel, in_choice: bool) -> Option<ExprModel> {
    if in_choice {
        match (a, b) {
            (ExprModel::CharacterCondition(p), ExprModel::CharacterCondition(q)) => Some(
                ExprModel::CharacterCondition(Condition::Or(Box::new(p), Box::new(q))),
            ),
            _ => None,
        }
    } else {
        match a {
            ExprModel::NegPred(inner) => match *inner {
                ExprModel::CharacterCondition(p) => match b {
                    ExprModel::CharacterCondition(q) => Some(
                        ExprModel::CharacterCondition(
                            Condition::And(
                                Box::new(Condition::Not(Box::new(p))),
                                Box::new(q),
                            ),
                        ),
                    ),
                    ExprModel::NegPred(other) => match *other {
                        ExprModel::CharacterCondition(q) => Some(
                            ExprModel::NegPred(
                                Box::new(
                                    ExprModel::CharacterCondition(
                                        Condition::Or(Box::new(p), Box::new(q)),
                                    ),
                                ),
                            ),
                        ),
                        _ => None,
                    },
                    _ => None,
                },
                _ => None,
            },
            _ => None,
        }
    }
}

/// The list after fusing neighbours from left to right until no two
/// neighbours can be fused.
pub open spec fn fused(items: Seq<ExprModel>, in_choice: bool) -> Seq<ExprModel>
    decreases items.len(),
{
    if items.len() < 2 {
        items
    } else {
        match merged(items[0], items[1], in_choice) {
            Some(m) => fused(seq![m] + items.skip(2), in_choice),
            None => seq![items[0]] + fused(items.skip(1), in_choice),
        }
    }
}

/// A list of one item stands for that item; any other list becomes a
/// sequence or a choice.
pub open spec fn wrapped(items: Seq<ExprModel>, in_choice: bool) -> ExprModel {
    if items.len() == 1 {
        items[0]
    } else if in_choice {
        ExprModel::Choice(items)
    } else {
        ExprModel::Sequence(items)
    }
}

/// The reduced form of a grammar expression that can be lowered.
pub open spec fn optimized(e: &OptimizedExpr) -> ExprModel
    decreases e, 0nat,
{
    match e {
        OptimizedExpr::Str(value) => if bytes_of(value@).len() == 1 {
            ExprModel::CharacterCondition(Condition::Byte(bytes_of(value@)[0]))
        } else {
            ExprModel::Str(value@)
        },
        OptimizedExpr::Insens(value) => ExprModel::Insens(value@),
        OptimizedExpr::Ident(name) => match class_of_name(name@) {
            Some(class) => ExprModel::CharacterCondition(Condition::Class(class)),
            None => ExprModel::Ident(name@),
        },
        OptimizedExpr::Range(a, b) => ExprModel::CharacterCondition(
            Condition::Range(bytes_of(a@)[0], bytes_of(b@)[0]),
        ),
        OptimizedExpr::NegPred(inner) => ExprModel::NegPred(Box::new(optimized(inner))),
        OptimizedExpr::Opt(inner) => ExprModel::Opt(Box::new(optimized(inner))),
        OptimizedExpr::Rep(inner) => ExprModel::Rep(Box::new(optimized(inner)), true),
        OptimizedExpr::Seq(first, second) => if is_one_or_more(first, second) {
            ExprModel::Rep(Box::new(optimized(first)), false)
        } else {
            wrapped(fused(optimized_seq(first) + optimized_seq(second), false), false)
        },
        OptimizedExpr::Choice(first, second) => wrapped(
            fused(optimized_choice(first) + optimized_choice(second), true),
            true,
        ),
        _ => ExprModel::Sequence(Seq::empty()),
    }
}

/// The reduced forms of the operands of a chain of sequences.
pub open spec fn optimized_seq(e: &OptimizedExpr) -> Seq<ExprModel>
    decreases e, 1nat,
{
    match e {
        OptimizedExpr::Seq(first, second) => optimized_seq(first) + optimized_seq(second),
        _ => seq![optimized(e)],
    }
}

/// The reduced forms of the alternatives of a chain of choices.
pub open spec fn optimized_choice(e: &OptimizedExpr) -> Seq<ExprModel>
    decreases e, 1nat,
{
    match e {
        OptimizedExpr::Choice(first, second) => optimized_choice(first) + optimized_choice(
            second,
        ),
        _ => seq![optimized(e)],
    }
}

/// The reduced forms of a list of grammar expressions.
pub open spec fn optimized_all(items: Seq<&OptimizedExpr>) -> Seq<ExprModel> {
    Seq::new(items.len(), |i: int| optimized(items[i]))
}

proof fn lemma_optimized_seq(e: &OptimizedExpr)
    ensures
        optimized_seq(e) == optimized_all(flatten_seq(e)),
        supported_seq(e) <==> forall|i: int|
            0 <= i < flatten_seq(e).len() ==> supported(#[trigger] flatten_seq(e)[i]),
    decreases e,
{
    match e {
        OptimizedExpr::Seq(first, second) => {
            lemma_optimized_seq(first);
            lemma_optimized_seq(second);
            let a = flatten_seq(first);
            let b = flatten_seq(second);
            assert(optimized_seq(e) =~= optimized_all(flatten_seq(e)));
            if supported_seq(e) {
                assert forall|i: int| 0 <= i < flatten_seq(e).len() implies supported(
                    #[trigger] flatten_seq(e)[i],
                ) by {
                    if i < a.len() {
                        assert(flatten_seq(e)[i] == a[i]);
                    } else {
                        assert(flatten_seq(e)[i] == b[i - a.len()]);
                    }
                }
            }
            if forall|i: int|
                0 <= i < flatten_seq(e).len() ==> supported(#[trigger] flatten_seq(e)[i]) {
                assert forall|i: int| 0 <= i < a.len() implies supported(#[trigger] a[i]) by {
                    assert(flatten_seq(e)[i] == a[i]);
                }
                assert forall|i: int| 0 <= i < b.len() implies supported(#[trigger] b[i]) by {
                    assert(flatten_seq(e)[i + a.len()] == b[i]);
                }
            }
        },
        _ => {
            assert(optimized_seq(e) =~= optimized_all(flatten_seq(e)));
            assert(flatten_seq(e)[0] == e);
        },
    }
}

proof fn lemma_optimized_choice(e: &OptimizedExpr)
    ensures
        optimized_choice(e) == optimized_all(flatten_choice(e)),
        supported_choice(e) <==> forall|i: int|
            0 <= i < flatten_choice(e).len() ==> supported(#[trigger] flatten_choice(e)[i]),
    decreases e,
{
    match e {
        OptimizedExpr::Choice(first, second) => {
            lemma_optimized_choice(first);
            lemma_optimized_choice(second);
            let a = flatten_choice(first);
            let b = flatten_choice(second);
            assert(optimized_choice(e) =~= optimized_all(flatten_choice(e)));
            if supported_choice(e) {
                assert forall|i: int| 0 <= i < flatten_choice(e).len() implies supported(
                    #[trigger] flatten_choice(e)[i],
                ) by {
                    if i < a.len() {
                        assert(flatten_choice(e)[i] == a[i]);
                    } else {
                        assert(flatten_choice(e)[i] == b[i - a.len()]);
                    }
                }
            }
            if forall|i: int|
                0 <= i < flatten_choice(e).len() ==> supported(#[trigger] flatten_choice(e)[i]) {
                assert forall|i: int| 0 <= i < a.len() implies supported(#[trigger] a[i]) by {
                    assert(flatten_choice(e)[i] == a[i]);
                }
                assert forall|i: int| 0 <= i < b.len() implies supported(#[trigger] b[i]) by {
                    assert(flatten_choice(e)[i + a.len()] == b[i]);
                }
            }
        },
        _ => {
            assert(optimized_choice(e) =~= optimized_all(flatten_choice(e)));
            assert(flatten_choice(e)[0] == e);
        },
    }
}

/// The node that two neighbours fuse into, if they can be fused.
fn merge(a: &FPestExpr, b: &FPestExpr, in_choice: bool) -> (r: Option<FPestExpr>)
    ensures
        match r {
            Some(m) => merged(a@, b@, in_choice) == Some(m@),
            None => merged(a@, b@, in_choice) is None,
        },
{
    if in_choice {
        if let FPestExpr::CharacterCondition(p) = a {
            if let FPestExpr::CharacterCondition(q) = b {
                return Some(
                    FPestExpr::CharacterCondition(
                        Condition::Or(Box::new(p.copy()), Box::new(q.copy())),
                    ),
                );
            }
        }
        None
    } else {
        if let FPestExpr::NegPred(inner) = a {
            if let FPestExpr::CharacterCondition(p) = &**inner {
                assert(inner@ == ExprModel::CharacterCondition(*p));
                if let FPestExpr::CharacterCondition(q) = b {
                    return Some(
                        FPestExpr::CharacterCondition(
                            Condition::And(
                                Box::new(Condition::Not(Box::new(p.copy()))),
                                Box::new(q.copy()),
                            ),
                        ),
                    );
                } else if let FPestExpr::NegPred(other) = b {
                    if let FPestExpr::CharacterCondition(q) = &**other {
                        assert(other@ == ExprModel::CharacterCondition(*q));
                        let either = FPestExpr::CharacterCondition(
                            Condition::Or(Box::new(p.copy()), Box::new(q.copy())),
                        );
                        assert(either@ == ExprModel::CharacterCondition(
                            Condition::Or(Box::new(*p), Box::new(*q)),
                        ));
                        return Some(FPestExpr::NegPred(Box::new(either)));
                    }
                }
            }
        }
        None
    }
}

/// Fuses neighbours in place, from left to right, until no two
/// neighbours can be fused.
pub fn fuse(items: &mut Vec<FPestExpr>, in_choice: bool)
    ensures
        models_of(final(items)@) == fused(models_of(old(items)@), in_choice),
{
    let ghost start = models_of(items@);
    let mut i: usize = 0;
    assert(start.take(0) + fused(start.skip(0), in_choice) =~= fused(start, in_choice)) by {
        assert(start.skip(0) =~= start);
    }
    while i < items.len() && i + 1 < items.len()
        invariant
            i <= items.len(),
            fused(start, in_choice) == models_of(items@).take(i as int) + fused(
                models_of(items@).skip(i as int),
                in_choice,
            ),
        decreases items.len() - i,
    {
        let ghost before = models_of(items@);
        let ghost rest = before.skip(i as int);
        assert(rest.len() >= 2);
        assert(rest[0] == items@[i as int]@);
        assert(rest[1] == items@[i + 1]@);
        match merge(&items[i], &items[i + 1], in_choice) {
            Some(m) => {
                let ghost mm = m@;
                items.set(i, m);
                items.remove(i + 1);
                proof {
                    let after = models_of(items@);
                    assert(after.take(i as int) =~= before.take(i as int));
                    assert(after.skip(i as int) =~= seq![mm] + rest.skip(2));
                }
            },
            None => {
                i += 1;
                proof {
                    assert(before.take(i as int) =~= before.take(i - 1) + seq![rest[0]]);
                    assert(before.skip(i as int) =~= rest.skip(1));
                    assert(before.take(i - 1) + (seq![rest[0]] + fused(rest.skip(1), in_choice))
                        =~= before.take(i as int) + fused(rest.skip(1), in_choice));
                }
            },
        }
    }
    proof {
        let m = models_of(items@);
        assert(m.take(i as int) + m.skip(i as int) =~= m);
    }
}

/// A list of one item stands for that item; any other list becomes a
/// sequence or a choice.
pub fn wrap(items: Vec<FPestExpr>, in_choice: bool) -> (r: FPestExpr)
    ensures
        r@ == wrapped(models_of(items@), in_choice),
{
    broadcast use {lemma_sequence_model, lemma_choice_model};

    let mut items = items;
    if items.len() == 1 {
        let ghost m = models_of(items@);
        let last = items.pop();
        match last {
            Some(e) => {
                assert(m[0] == e@);
                e
            },
            None => FPestExpr::Sequence(items),
        }
    } else if in_choice {
        FPestExpr::Choice(items)
    } else {
        FPestExpr::Sequence(items)
    }
}

/// Lowers each expression of a list.
fn optimize_all(leaves: &Vec<&OptimizedExpr>, Ghost(bound): Ghost<nat>) -> (r: Result<
    Vec<FPestExpr>,
    Unsupported,
>)
    requires
        forall|i: int| 0 <= i < leaves@.len() ==> raw_size(#[trigger] leaves@[i]) < bound,
    ensures
        r is Ok <==> forall|i: int| 0 <= i < leaves@.len() ==> supported(#[trigger] leaves@[i]),
        r matches Ok(items) ==> models_of(items@) == optimized_all(leaves@),
    decreases bound, 0nat,
{
    let mut items: Vec<FPestExpr> = Vec::new();
    let mut i: usize = 0;
    while i < leaves.len()
        invariant
            i <= leaves.len(),
            items@.len() == i,
            forall|j: int| 0 <= j < leaves@.len() ==> raw_size(#[trigger] leaves@[j]) < bound,
            forall|j: int| 0 <= j < i ==> supported(#[trigger] leaves@[j]),
            forall|j: int| 0 <= j < i ==> (#[trigger] items@[j])@ == optimized(leaves@[j]),
        decreases leaves.len() - i,
    {
        match optimize(leaves[i]) {
            Ok(item) => {
                items.push(item);
            },
            Err(e) => {
                return Err(e);
            },
        }
        i += 1;
    }
    assert(models_of(items@) =~= optimized_all(leaves@));
    Ok(items)
}

/// Lowers a grammar expression into the reduced tree.
///
/// One-byte literals, single-byte ranges and the named character classes
/// become byte tests; `x ~ x*` becomes one-or-more; chains of binary
/// sequences and choices become lists, in which neighbours are fused.
/// An expression that holds any other construct is refused.
pub fn optimize(expr: &OptimizedExpr) -> (r: Result<FPestExpr, Unsupported>)
    ensures
        r is Ok <==> supported(expr),
        r matches Ok(e) ==> e@ == optimized(expr),
    decreases raw_size(expr), 1nat,
{
    match expr {
        OptimizedExpr::Str(value) => {
            if value.as_str().len() == 1 {
                let bytes = value.as_str().as_bytes();
                Ok(FPestExpr::CharacterCondition(Condition::Byte(bytes[0])))
            } else {
                Ok(FPestExpr::Str(value.clone()))
            }
        },
        OptimizedExpr::Insens(value) => Ok(FPestExpr::Insens(value.clone())),
        OptimizedExpr::Ident(ident) => {
            match Class::from_name(ident.as_str()) {
                Some(class) => Ok(FPestExpr::CharacterCondition(Condition::Class(class))),
                None => Ok(FPestExpr::Ident(ident.clone())),
            }
        },
        OptimizedExpr::NegPred(inner) => {
            match optimize(inner) {
                Ok(e) => Ok(FPestExpr::NegPred(Box::new(e))),
                Err(e) => Err(e),
            }
        },
        OptimizedExpr::Seq(first, second) => {
            if let OptimizedExpr::Rep(inner) = &**second {
                if raw_same(first, inner) {
                    return match optimize(first) {
                        Ok(e) => Ok(FPestExpr::Rep(Box::new(e), false)),
                        Err(e) => Err(e),
                    };
                }
            }
            let mut seq: Vec<&OptimizedExpr> = Vec::new();
            list_seq(expr, &mut seq);
            proof {
                lemma_flatten_seq_sizes(expr);
                lemma_optimized_seq(first);
                lemma_optimized_seq(second);
                assert(seq@ =~= flatten_seq(expr));
                assert(optimized_all(seq@) =~= optimized_seq(first) + optimized_seq(second));
                let a = flatten_seq(first);
                let b = flatten_seq(second);
                if supported(expr) {
                    assert forall|i: int| 0 <= i < seq@.len() implies supported(
                        #[trigger] seq@[i],
                    ) by {
                        if i < a.len() {
                            assert(seq@[i] == a[i]);
                        } else {
                            assert(seq@[i] == b[i - a.len()]);
                        }
                    }
                }
                if forall|i: int| 0 <= i < seq@.len() ==> supported(#[trigger] seq@[i]) {
                    assert forall|i: int| 0 <= i < a.len() implies supported(#[trigger] a[i]) by {
                        assert(seq@[i] == a[i]);
                    }
                    assert forall|i: int| 0 <= i < b.len() implies supported(#[trigger] b[i]) by {
                        assert(seq@[i + a.len()] == b[i]);
                    }
                }
            }
            match optimize_all(&seq, Ghost(raw_size(expr))) {
                Ok(items) => {
                    let mut items = items;
                    fuse(&mut items, false);
                    Ok(wrap(items, false))
                },
                Err(e) => Err(e),
            }
        },
        OptimizedExpr::Choice(first, second) => {
            let mut choices: Vec<&OptimizedExpr> = Vec::new();
            list_choices(expr, &mut choices);
            proof {
                lemma_flatten_choice_sizes(expr);
                lemma_optimized_choice(first);
                lemma_optimized_choice(second);
                assert(choices@ =~= flatten_choice(expr));
                assert(optimized_all(choices@) =~= optimized_choice(first) + optimized_choice(
                    second,
                ));
                let a = flatten_choice(first);
                let b = flatten_choice(second);
                if supported(expr) {
                    assert forall|i: int| 0 <= i < choices@.len() implies supported(
                        #[trigger] choices@[i],
                    ) by {
                        if i < a.len() {
                            assert(choices@[i] == a[i]);
                        } else {
                            assert(choices@[i] == b[i - a.len()]);
                        }
                    }
                }
                if forall|i: int| 0 <= i < choices@.len() ==> supported(#[trigger] choices@[i]) {
                    assert forall|i: int| 0 <= i < a.len() implies supported(#[trigger] a[i]) by {
                        assert(choices@[i] == a[i]);
                    }
                    assert forall|i: int| 0 <= i < b.len() implies supported(#[trigger] b[i]) by {
                        assert(choices@[i + a.len()] == b[i]);
                    }
                }
            }
            match optimize_all(&choices, Ghost(raw_size(expr))) {
                Ok(items) => {
                    let mut items = items;
                    fuse(&mut items, true);
                    Ok(wrap(items, true))
                },
                Err(e) => Err(e),
            }
        },
        OptimizedExpr::Opt(inner) => {
            match optimize(inner) {
                Ok(e) => Ok(FPestExpr::Opt(Box::new(e))),
                Err(e) => Err(e),
            }
        },
        OptimizedExpr::Rep(inner) => {
            match optimize(inner) {
                Ok(e) => Ok(FPestExpr::Rep(Box::new(e), true)),
                Err(e) => Err(e),
            }
        },
        OptimizedExpr::Range(a, b) => {
            if a.as_str().len() == 1 && b.as_str().len() == 1 {
                let lo = a.as_str().as_bytes();
                let hi = b.as_str().as_bytes();
                Ok(FPestExpr::CharacterCondition(Condition::Range(lo[0], hi[0])))
            } else {
                Err(Unsupported)
            }
        },
        _ => Err(Unsupported),
    }
}

/// The table of the silent rules that are byte tests, with names as
/// sequences of characters.
pub open spec fn table_model(table: Seq<(String, Condition)>) -> Seq<(Seq<char>, Condition)> {
    Seq::new(table.len(), |i: int| (table[i].0@, table[i].1))
}

/// The byte test that the table gives for a rule name: that of the first
/// entry with this name.
pub open spec fn condition_of(table: Seq<(Seq<char>, Condition)>, name: Seq<char>) -> Option<
    Condition,
>
    decreases table.len(),
{
    if table.len() == 0 {
        None
    } else if table[0].0 == name {
        Some(table[0].1)
    } else {
        condition_of(table.skip(1), name)
    }
}

/// The expression after the second pass: every reference to a rule of the
/// table is replaced by the rule's byte test, and the lists are fused
/// again.
pub open spec fn staged(e: ExprModel, table: Seq<(Seq<char>, Condition)>) -> ExprModel
    decreases e,
{
    match e {
        ExprModel::Ident(name) => match condition_of(table, name) {
            Some(c) => ExprModel::CharacterCondition(c),
            None => e,
        },
        ExprModel::Str(_) => e,
        ExprModel::Insens(_) => e,
        ExprModel::CharacterCondition(_) => e,
        ExprModel::NegPred(inner) => ExprModel::NegPred(Box::new(staged(*inner, table))),
        ExprModel::Sequence(items) => wrapped(fused(staged_all(items, table), false), false),
        ExprModel::Choice(items) => wrapped(fused(staged_all(items, table), true), true),
        ExprModel::Rep(inner, empty_accepted) => ExprModel::Rep(
            Box::new(staged(*inner, table)),
            empty_accepted,
        ),
        ExprModel::Opt(inner) => ExprModel::Opt(Box::new(staged(*inner, table))),
    }
}

/// The second pass on each expression of a list.
pub open spec fn staged_all(items: Seq<ExprModel>, table: Seq<(Seq<char>, Condition)>) -> Seq<
    ExprModel,
>
    decreases items,
{
    Seq::new(
        items.len(),
        |i: int|
            if 0 <= i < items.len() {
                staged(items[i], table)
            } else {
                ExprModel::Sequence(Seq::empty())
            },
    )
}

fn lookup(table: &Vec<(String, Condition)>, name: &String) -> (r: Option<Condition>)
    ensures
        r == condition_of(table_model(table@), name@),
{
    let mut i: usize = 0;
    let ghost entries = table_model(table@);
    assert(entries.skip(0) =~= entries);
    while i < table.len()
        invariant
            i <= table.len(),
            entries == table_model(table@),
            condition_of(entries, name@) == condition_of(entries.skip(i as int), name@),
        decreases table.len() - i,
    {
        assert(entries.skip(i as int)[0] == entries[i as int]);
        assert(entries.skip(i as int).skip(1) =~= entries.skip(i + 1));
        if table[i].0 == *name {
            return Some(table[i].1.copy());
        }
        i += 1;
    }
    None
}

#[verifier::loop_isolation(false)]
fn stage_all(items: &Vec<FPestExpr>, table: &Vec<(String, Condition)>) -> (r: Vec<FPestExpr>)
    ensures
        models_of(r@) == staged_all(models_of(items@), table_model(table@)),
    decreases items, 0nat,
{
    let mut r: Vec<FPestExpr> = Vec::new();
    let mut i: usize = 0;
    while i < items.len()
        invariant
            i <= items.len(),
            r@.len() == i,
            forall|j: int|
                0 <= j < i ==> (#[trigger] r@[j])@ == staged(items@[j]@, table_model(table@)),
        decreases items.len() - i,
    {
        proof {
            assert(decreases_to!(*items => items[i as int]));
        }
        let item = second_stage(&items[i], table);
        r.push(item);
        i += 1;
    }
    assert(models_of(r@) =~= staged_all(models_of(items@), table_model(table@)));
    r
}

/// The expression after the second pass.
pub fn second_stage(expr: &FPestExpr, table: &Vec<(String, Condition)>) -> (r: FPestExpr)
    ensures
        r@ == staged(expr@, table_model(table@)),
    decreases expr, 1nat,
{
    broadcast use {lemma_sequence_model, lemma_choice_model};

    match expr {
        FPestExpr::Ident(ident) => match lookup(table, ident) {
            Some(condition) => FPestExpr::CharacterCondition(condition),
            None => FPestExpr::Ident(ident.clone()),
        },
        FPestExpr::Str(value) => FPestExpr::Str(value.clone()),
        FPestExpr::Insens(value) => FPestExpr::Insens(value.clone()),
        FPestExpr::CharacterCondition(c) => FPestExpr::CharacterCondition(c.copy()),
        FPestExpr::NegPred(inner) => FPestExpr::NegPred(Box::new(second_stage(inner, table))),
        FPestExpr::Sequence(items) => {
            let mut staged_items = stage_all(items, table);
            fuse(&mut staged_items, false);
            wrap(staged_items, false)
        },
        FPestExpr::Choice(items) => {
            let mut staged_items = stage_all(items, table);
            fuse(&mut staged_items, true);
            wrap(staged_items, true)
        },
        FPestExpr::Rep(inner, empty_accepted) => FPestExpr::Rep(
            Box::new(second_stage(inner, table)),
            *empty_accepted,
        ),
        FPestExpr::Opt(inner) => FPestExpr::Opt(Box::new(second_stage(inner, table))),
    }
}

/// Replaces, in place, every reference to a rule of the table by the
/// rule's byte test, and fuses the lists again.
pub fn optimize_second_stage(expr: &mut FPestExpr, character_set_rules: &Vec<(String, Condition)>)
    ensures
        final(expr)@ == staged(old(expr)@, table_model(character_set_rules@)),
{
    let next = second_stage(expr, character_set_rules);
    *expr = next;
}

/// No two neighbours of the list can be fused.
pub open spec fn settled(items: Seq<ExprModel>, in_choice: bool) -> bool {
    forall|i: int|
        0 <= i && i + 1 < items.len() ==> (#[trigger] merged(items[i], items[i + 1], in_choice))
            is None
}

proof fn lemma_fused_head(a: ExprModel, items: Seq<ExprModel>, in_choice: bool)
    requires
        items.len() >= 1,
        merged(a, items[0], in_choice) is None,
    ensures
        fused(items, in_choice).len() >= 1,
        merged(a, fused(items, in_choice)[0], in_choice) is None,
    decreases items.len(),
{
    if items.len() >= 2 {
        match merged(items[0], items[1], in_choice) {
            Some(m) => {
                lemma_fused_head(a, seq![m] + items.skip(2), in_choice);
            },
            None => {},
        }
    }
}

proof fn lemma_fused_settled(items: Seq<ExprModel>, in_choice: bool)
    ensures
        settled(fused(items, in_choice), in_choice),
    decreases items.len(),
{
    if items.len() >= 2 {
        match merged(items[0], items[1], in_choice) {
            Some(m) => {
                lemma_fused_settled(seq![m] + items.skip(2), in_choice);
            },
            None => {
                let rest = fused(items.skip(1), in_choice);
                let all = fused(items, in_choice);
                lemma_fused_settled(items.skip(1), in_choice);
                lemma_fused_head(items[0], items.skip(1), in_choice);
                assert(all == seq![items[0]] + rest);
                assert forall|i: int| 0 <= i && i + 1 < all.len() implies (#[trigger] merged(
                    all[i],
                    all[i + 1],
                    in_choice,
                )) is None by {
                    if i > 0 {
                        assert(all[i] == rest[i - 1]);
                        assert(all[i + 1] == rest[i - 1 + 1]);
                        assert(merged(rest[i - 1], rest[i - 1 + 1], in_choice) is None);
                    }
                }
            },
        }
    }
}

proof fn lemma_settled_fixed(items: Seq<ExprModel>, in_choice: bool)
    requires
        settled(items, in_choice),
    ensures
        fused(items, in_choice) == items,
    decreases items.len(),
{
    if items.len() >= 2 {
        assert(merged(items[0int], items[0int + 1], in_choice) is None);
        let rest = items.skip(1);
        assert forall|i: int| 0 <= i && i + 1 < rest.len() implies (#[trigger] merged(
            rest[i],
            rest[i + 1],
            in_choice,
        )) is None by {
            assert(merged(items[i + 1], items[i + 1 + 1], in_choice) is None);
        }
        lemma_settled_fixed(rest, in_choice);
        assert(seq![items[0]] + rest =~= items);
    }
}

/// Fusing a list that was fused changes nothing.
pub proof fn lemma_fused_idempotent(items: Seq<ExprModel>, in_choice: bool)
    ensures
        fused(fused(items, in_choice), in_choice) == fused(items, in_choice),
{
    lemma_fused_settled(items, in_choice);
    lemma_settled_fixed(fused(items, in_choice), in_choice);
}

proof fn lemma_fused_keeps_fixed(
    items: Seq<ExprModel>,
    in_choice: bool,
    table: Seq<(Seq<char>, Condition)>,
)
    requires
        forall|i: int| 0 <= i < items.len() ==> staged(#[trigger] items[i], table) == items[i],
    ensures
        forall|i: int|
            0 <= i < fused(items, in_choice).len() ==> staged(
                #[trigger] fused(items, in_choice)[i],
                table,
            ) == fused(items, in_choice)[i],
    decreases items.len(),
{
    if items.len() >= 2 {
        match merged(items[0], items[1], in_choice) {
            Some(m) => {
                let next = seq![m] + items.skip(2);
                assert(staged(m, table) == m) by {
                    match m {
                        ExprModel::NegPred(inner) => {
                            assert(staged(*inner, table) == *inner);
                        },
                        _ => {},
                    }
                }
                assert forall|i: int| 0 <= i < next.len() implies staged(
                    #[trigger] next[i],
                    table,
                ) == next[i] by {
                    if i > 0 {
                        assert(next[i] == items[i + 1]);
                    }
                }
                lemma_fused_keeps_fixed(next, in_choice, table);
            },
            None => {
                let rest = items.skip(1);
                assert forall|i: int| 0 <= i < rest.len() implies staged(
                    #[trigger] rest[i],
                    table,
                ) == rest[i] by {
                    assert(rest[i] == items[i + 1]);
                }
                lemma_fused_keeps_fixed(rest, in_choice, table);
                let all = fused(items, in_choice);
                let tail = fused(rest, in_choice);
                assert forall|i: int| 0 <= i < all.len() implies staged(#[trigger] all[i], table)
                    == all[i] by {
                    if i > 0 {
                        assert(all[i] == tail[i - 1]);
                    }
                }
            },
        }
    }
}

proof fn lemma_staged_list(
    items: Seq<ExprModel>,
    in_choice: bool,
    table: Seq<(Seq<char>, Condition)>,
)
    requires
        forall|i: int|
            0 <= i < items.len() ==> staged(staged(#[trigger] items[i], table), table) == staged(
                items[i],
                table,
            ),
    ensures
        ({
            let r = wrapped(fused(staged_all(items, table), in_choice), in_choice);
            staged(r, table) == r
        }),
{
    let s = staged_all(items, table);
    let f = fused(s, in_choice);
    let r = wrapped(f, in_choice);
    assert forall|i: int| 0 <= i < s.len() implies staged(#[trigger] s[i], table) == s[i] by {
        assert(s[i] == staged(items[i], table));
    }
    lemma_fused_keeps_fixed(s, in_choice, table);
    if f.len() != 1 {
        assert(staged_all(f, table) =~= f);
        lemma_fused_idempotent(s, in_choice);
    }
}

/// The second pass is idempotent: applied to an expression that it
/// produced, with the same table, it changes nothing.
pub proof fn lemma_second_stage_idempotent(e: ExprModel, table: Seq<(Seq<char>, Condition)>)
    ensures
        staged(staged(e, table), table) == staged(e, table),
    decreases e,
{
    match e {
        ExprModel::Ident(_) => {},
        ExprModel::Str(_) => {},
        ExprModel::Insens(_) => {},
        ExprModel::CharacterCondition(_) => {},
        ExprModel::NegPred(inner) => {
            lemma_second_stage_idempotent(*inner, table);
        },
        ExprModel::Sequence(items) => {
            assert forall|i: int| 0 <= i < items.len() implies staged(
                staged(#[trigger] items[i], table),
                table,
            ) == staged(items[i], table) by {
                lemma_second_stage_idempotent(items[i], table);
            }
            lemma_staged_list(items, false, table);
        },
        ExprModel::Choice(items) => {
            assert forall|i: int| 0 <= i < items.len() implies staged(
                staged(#[trigger] items[i], table),
                table,
            ) == staged(items[i], table) by {
                lemma_second_stage_idempotent(items[i], table);
            }
            lemma_staged_list(items, true, table);
        },
        ExprModel::Rep(inner, _) => {
            lemma_second_stage_idempotent(*inner, table);
        },
        ExprModel::Opt(inner) => {
            lemma_second_stage_idempotent(*inner, table);
        },
    }
}

proof fn lemma_settled_list(items: Seq<ExprModel>, in_choice: bool)
    requires
        forall|i: int|
            0 <= i < items.len() ==> staged(#[trigger] items[i], Seq::empty()) == items[i],
    ensures
        ({
            let r = wrapped(fused(items, in_choice), in_choice);
            staged(r, Seq::empty()) == r
        }),
{
    assert(staged_all(items, Seq::empty()) =~= items);
    lemma_staged_list(items, in_choice, Seq::empty());
}

proof fn lemma_optimized_seq_settled(e: &OptimizedExpr)
    ensures
        forall|i: int|
            0 <= i < optimized_seq(e).len() ==> staged(
                #[trigger] optimized_seq(e)[i],
                Seq::empty(),
            ) == optimized_seq(e)[i],
    decreases e, 1nat,
{
    match e {
        OptimizedExpr::Seq(first, second) => {
            lemma_optimized_seq_settled(first);
            lemma_optimized_seq_settled(second);
            let a = optimized_seq(first);
            let b = optimized_seq(second);
            let items = optimized_seq(e);
            assert forall|i: int| 0 <= i < items.len() implies staged(
                #[trigger] items[i],
                Seq::empty(),
            ) == items[i] by {
                if i < a.len() {
                    assert(items[i] == a[i]);
                } else {
                    assert(items[i] == b[i - a.len()]);
                }
            }
        },
        _ => {
            lemma_optimized_settled(e);
        },
    }
}

proof fn lemma_optimized_choice_settled(e: &OptimizedExpr)
    ensures
        forall|i: int|
            0 <= i < optimized_choice(e).len() ==> staged(
                #[trigger] optimized_choice(e)[i],
                Seq::empty(),
            ) == optimized_choice(e)[i],
    decreases e, 1nat,
{
    match e {
        OptimizedExpr::Choice(first, second) => {
            lemma_optimized_choice_settled(first);
            lemma_optimized_choice_settled(second);
            let a = optimized_choice(first);
            let b = optimized_choice(second);
            let items = optimized_choice(e);
            assert forall|i: int| 0 <= i < items.len() implies staged(
                #[trigger] items[i],
                Seq::empty(),
            ) == items[i] by {
                if i < a.len() {
                    assert(items[i] == a[i]);
                } else {
                    assert(items[i] == b[i - a.len()]);
                }
            }
        },
        _ => {
            lemma_optimized_settled(e);
        },
    }
}

/// The first pass leaves nothing for the second to fuse: on the reduced
/// form of a grammar expression the second pass, with no rule to inline,
/// changes nothing.
pub proof fn lemma_optimized_settled(e: &OptimizedExpr)
    ensures
        staged(optimized(e), Seq::empty()) == optimized(e),
    decreases e, 0nat,
{
    match e {
        OptimizedExpr::NegPred(inner) => {
            lemma_optimized_settled(inner);
        },
        OptimizedExpr::Opt(inner) => {
            lemma_optimized_settled(inner);
        },
        OptimizedExpr::Rep(inner) => {
            lemma_optimized_settled(inner);
        },
        OptimizedExpr::Seq(first, second) => {
            if is_one_or_more(first, second) {
                lemma_optimized_settled(first);
            } else {
                lemma_optimized_seq_settled(first);
                lemma_optimized_seq_settled(second);
                let a = optimized_seq(first);
                let b = optimized_seq(second);
                let items = a + b;
                assert forall|i: int| 0 <= i < items.len() implies staged(
                    #[trigger] items[i],
                    Seq::empty(),
                ) == items[i] by {
                    if i < a.len() {
                        assert(items[i] == a[i]);
                    } else {
                        assert(items[i] == b[i - a.len()]);
                    }
                }
                lemma_settled_list(items, false);
            }
        },
        OptimizedExpr::Choice(first, second) => {
            lemma_optimized_choice_settled(first);
            lemma_optimized_choice_settled(second);
            let a = optimized_choice(first);
            let b = optimized_choice(second);
            let items = a + b;
            assert forall|i: int| 0 <= i < items.len() implies staged(
                #[trigger] items[i],
                Seq::empty(),
            ) == items[i] by {
                if i < a.len() {
                    assert(items[i] == a[i]);
                } else {
                    assert(items[i] == b[i - a.len()]);
                }
            }
            lemma_settled_list(items, true);
        },
        _ => {
            assert(staged_all(Seq::<ExprModel>::empty(), Seq::empty()) =~= Seq::<
                ExprModel,
            >::empty());
        },
    }
}

} // verus!
