//! From the rules of a grammar, as `pest_meta` produces them, to the rule
//! table that the matchers and the generator work on.
use vstd::prelude::*;
use vstd::string::*;
use pest_meta::ast::RuleType;
use pest_meta::optimizer::OptimizedRule;
use crate::condition::Condition;
use crate::expr::{ExprModel, FPestExpr};
use crate::grammar::{rule_models, Grammar, GrammarRule};
use crate::optimizer::{optimize, optimized, second_stage, staged, supported, table_model, Unsupported};
use crate::raw::bytes_of;
use crate::semantics::RuleModel;

verus! {

/// `pest_meta::optimizer::OptimizedRule`, with the fields that `pest_meta`
/// declares.
#[verifier::external_type_specification]
pub struct ExOptimizedRule(OptimizedRule);

/// `pest_meta::ast::RuleType`, with the variants that `pest_meta`
/// declares.
#[verifier::external_type_specification]
pub struct ExRuleType(RuleType);

/// Why a grammar cannot be used.
#[derive(Debug, PartialEq, Eq)]
pub enum GrammarError {
    /// The rule at this place holds a construct that cannot be lowered.
    Unsupported(usize),
}

/// Whether a rule is silent.
pub open spec fn is_silent(rule: &OptimizedRule) -> bool {
    rule.ty is Silent
}

/// The byte test of a silent rule that is nothing but a byte test.
pub open spec fn character_set(rule: &OptimizedRule) -> Option<Condition> {
    if is_silent(rule) {
        match optimized(&rule.expr) {
            ExprModel::CharacterCondition(c) => Some(c),
            _ => None,
        }
    } else {
        None
    }
}

/// The table of the silent rules that are nothing but a byte test, in the
/// order of the rules.
pub open spec fn table_of(rules: Seq<OptimizedRule>) -> Seq<(Seq<char>, Condition)>
    decreases rules.len(),
{
    if rules.len() == 0 {
        Seq::empty()
    } else {
        match character_set(&rules.last()) {
            Some(c) => table_of(rules.drop_last()).push((rules.last().name@, c)),
            None => table_of(rules.drop_last()),
        }
    }
}

/// Whether every rule can be lowered.
pub open spec fn all_supported(rules: Seq<OptimizedRule>) -> bool {
    forall|i: int| 0 <= i < rules.len() ==> supported(&(#[trigger] rules[i]).expr)
}

/// The first rule that cannot be lowered.
pub open spec fn first_unsupported(rules: Seq<OptimizedRule>, k: int) -> bool {
    &&& 0 <= k < rules.len()
    &&& !supported(&rules[k].expr)
    &&& forall|i: int| 0 <= i < k ==> supported(&(#[trigger] rules[i]).expr)
}

/// The rule table of a grammar: every rule with its body lowered, and
/// with the references to silent rules that are byte tests replaced by
/// these tests.
pub open spec fn lowered(rules: Seq<OptimizedRule>) -> Seq<RuleModel> {
    Seq::new(
        rules.len(),
        |i: int|
            RuleModel {
                name: rules[i].name@,
                silent: is_silent(&rules[i]),
                expr: staged(optimized(&rules[i].expr), table_of(rules)),
            },
    )
}

fn silent(rule: &OptimizedRule) -> (r: bool)
    ensures
        r == is_silent(rule),
{
    match rule.ty {
        RuleType::Silent => true,
        _ => false,
    }
}

/// Lowers the rules of a grammar into its rule table.
///
/// Every body goes through the first pass. The silent rules whose body
/// has become a byte test make up a table, and every body goes through
/// the second pass with that table.
pub fn lower(rules: &Vec<OptimizedRule>) -> (r: Result<Vec<GrammarRule>, GrammarError>)
    ensures
        match r {
            Ok(table) => all_supported(rules@) && rule_models(table@) == lowered(rules@),
            Err(GrammarError::Unsupported(k)) => first_unsupported(rules@, k as int),
        },
{
    let mut bodies: Vec<FPestExpr> = Vec::new();
    let mut character_set_rules: Vec<(String, Condition)> = Vec::new();
    let mut i: usize = 0;
    while i < rules.len()
        invariant
            i <= rules.len(),
            bodies@.len() == i,
            forall|j: int| 0 <= j < i ==> supported(&(#[trigger] rules@[j]).expr),
            forall|j: int| 0 <= j < i ==> (#[trigger] bodies@[j])@ == optimized(&rules@[j].expr),
            table_model(character_set_rules@) == table_of(rules@.take(i as int)),
        decreases rules.len() - i,
    {
        let body = match optimize(&rules[i].expr) {
            Ok(body) => body,
            Err(_) => {
                return Err(GrammarError::Unsupported(i));
            },
        };
        proof {
            assert(rules@.take(i + 1).drop_last() =~= rules@.take(i as int));
            assert(rules@.take(i + 1).last() == rules@[i as int]);
        }
        if silent(&rules[i]) {
            if let FPestExpr::CharacterCondition(c) = &body {
                let ghost before = table_model(character_set_rules@);
                character_set_rules.push((rules[i].name.clone(), c.copy()));
                assert(table_model(character_set_rules@) =~= before.push(
                    (rules@[i as int].name@, *c),
                ));
            }
        }
        bodies.push(body);
        i += 1;
    }
    assert(rules@.take(rules@.len() as int) =~= rules@);
    let mut table: Vec<GrammarRule> = Vec::new();
    let mut i: usize = 0;
    while i < rules.len()
        invariant
            i <= rules.len(),
            table@.len() == i,
            bodies@.len() == rules.len(),
            forall|j: int|
                0 <= j < rules.len() ==> (#[trigger] bodies@[j])@ == optimized(&rules@[j].expr),
            table_model(character_set_rules@) == table_of(rules@),
            forall|j: int| 0 <= j < i ==> (#[trigger] table@[j])@ == lowered(rules@)[j],
        decreases rules.len() - i,
    {
        let expr = second_stage(&bodies[i], &character_set_rules);
        table.push(GrammarRule { name: rules[i].name.clone(), silent: silent(&rules[i]), expr });
        i += 1;
    }
    assert(rule_models(table@) =~= lowered(rules@));
    Ok(table)
}

/// The grammar of the given rules.
pub fn compile_rules(rules: &Vec<OptimizedRule>) -> (r: Result<Grammar, GrammarError>)
    ensures
        match r {
            Ok(grammar) => all_supported(rules@) && grammar@ == lowered(rules@),
            Err(GrammarError::Unsupported(k)) => first_unsupported(rules@, k as int),
        },
{
    match lower(rules) {
        Ok(table) => Ok(Grammar::new(table)),
        Err(e) => Err(e),
    }
}

/// The first sequence of bytes stands before the second in the order of
/// a dictionary.
pub open spec fn bytes_less(a: Seq<u8>, b: Seq<u8>) -> bool
    decreases a.len(),
{
    if b.len() == 0 {
        false
    } else if a.len() == 0 {
        true
    } else if a[0] != b[0] {
        a[0] < b[0]
    } else {
        bytes_less(a.skip(1), b.skip(1))
    }
}

/// The first name stands before the second in the order of their bytes.
pub open spec fn name_less(a: Seq<char>, b: Seq<char>) -> bool {
    bytes_less(bytes_of(a), bytes_of(b))
}

/// Whether the first name stands before the second in the order of their
/// bytes.
pub fn name_before(a: &str, b: &str) -> (r: bool)
    ensures
        r == name_less(a@, b@),
{
    let x = a.as_bytes();
    let y = b.as_bytes();
    let mut i: usize = 0;
    assert(x@.skip(0) =~= x@);
    assert(y@.skip(0) =~= y@);
    while i < x.len() && i < y.len()
        invariant
            i <= x.len(),
            i <= y.len(),
            x@ == bytes_of(a@),
            y@ == bytes_of(b@),
            bytes_less(x@, y@) == bytes_less(x@.skip(i as int), y@.skip(i as int)),
        decreases x.len() - i,
    {
        assert(x@.skip(i as int)[0] == x@[i as int]);
        assert(y@.skip(i as int)[0] == y@[i as int]);
        assert(x@.skip(i as int).skip(1) =~= x@.skip(i + 1));
        assert(y@.skip(i as int).skip(1) =~= y@.skip(i + 1));
        if x[i] != y[i] {
            assert(x@.skip(i as int).len() > 0 && y@.skip(i as int).len() > 0);
            assert(bytes_less(x@.skip(i as int), y@.skip(i as int)) == (x@[i as int]
                < y@[i as int]));
            return x[i] < y[i];
        }
        i += 1;
    }
    i < y.len()
}

/// The number of rules at the front of the list whose names stand before
/// the name.
pub open spec fn place_of(rules: Seq<OptimizedRule>, name: Seq<char>, from: nat) -> nat
    decreases rules.len() - from,
{
    if from >= rules.len() || !name_less(rules[from as int].name@, name) {
        from
    } else {
        place_of(rules, name, from + 1)
    }
}

/// The list with one more rule: the rule takes the place of a rule of
/// its name where the list has one at the place where the name belongs,
/// and is put in at that place where it has none.
pub open spec fn with_rule(rules: Seq<OptimizedRule>, rule: OptimizedRule) -> Seq<OptimizedRule> {
    let k = place_of(rules, rule.name@, 0) as int;
    if k < rules.len() && rules[k].name@ == rule.name@ {
        rules.update(k, rule)
    } else {
        rules.insert(k, rule)
    }
}

/// The list with more rules, one after the other.
pub open spec fn with_rules(rules: Seq<OptimizedRule>, more: Seq<OptimizedRule>) -> Seq<
    OptimizedRule,
>
    decreases more.len(),
{
    if more.len() == 0 {
        rules
    } else {
        with_rule(with_rules(rules, more.drop_last()), more.last())
    }
}

/// The names of the rules stand in rising order; no name stands twice.
pub open spec fn in_name_order(rules: Seq<OptimizedRule>) -> bool {
    forall|i: int, j: int|
        0 <= i < j < rules.len() ==> name_less(#[trigger] rules[i].name@, #[trigger] rules[j].name@)
}

/// Of two different sequences of bytes one stands before the other.
pub proof fn lemma_bytes_total(a: Seq<u8>, b: Seq<u8>)
    ensures
        a == b || bytes_less(a, b) || bytes_less(b, a),
        !(bytes_less(a, b) && bytes_less(b, a)),
        !bytes_less(a, a),
    decreases a.len(),
{
    if a.len() > 0 && b.len() > 0 && a[0] == b[0] {
        lemma_bytes_total(a.skip(1), b.skip(1));
        if a.skip(1) == b.skip(1) {
            assert(a =~= seq![a[0]] + a.skip(1));
            assert(b =~= seq![b[0]] + b.skip(1));
        }
    } else if a.len() == 0 && b.len() == 0 {
        assert(a =~= b);
    }
    if a.len() > 0 {
        lemma_bytes_total(a.skip(1), a.skip(1));
    }
}

/// What stands before something that stands before a third stands before
/// the third.
pub proof fn lemma_bytes_transitive(a: Seq<u8>, b: Seq<u8>, c: Seq<u8>)
    requires
        bytes_less(a, b),
        bytes_less(b, c),
    ensures
        bytes_less(a, c),
    decreases a.len(),
{
    if a.len() > 0 && b.len() > 0 && c.len() > 0 && a[0] == b[0] && b[0] == c[0] {
        lemma_bytes_transitive(a.skip(1), b.skip(1), c.skip(1));
    }
}

/// Of two different names one stands before the other.
pub proof fn lemma_names_total(a: Seq<char>, b: Seq<char>)
    ensures
        a == b || name_less(a, b) || name_less(b, a),
        !(name_less(a, b) && name_less(b, a)),
        !name_less(a, a),
{
    lemma_bytes_total(bytes_of(a), bytes_of(b));
    lemma_bytes_total(bytes_of(a), bytes_of(a));
    if bytes_of(a) == bytes_of(b) {
        vstd::utf8::encode_utf8_decode_utf8(a);
        vstd::utf8::encode_utf8_decode_utf8(b);
    }
}

/// What the place of a name says: the names before the place stand
/// before the name, and the name at the place does not.
pub proof fn lemma_place_of(rules: Seq<OptimizedRule>, name: Seq<char>, from: nat)
    requires
        from <= rules.len(),
    ensures
        from <= place_of(rules, name, from) <= rules.len(),
        forall|i: int|
            from <= i < place_of(rules, name, from) ==> name_less(
                (#[trigger] rules[i]).name@,
                name,
            ),
        place_of(rules, name, from) < rules.len() ==> !name_less(
            rules[place_of(rules, name, from) as int].name@,
            name,
        ),
    decreases rules.len() - from,
{
    if from < rules.len() && name_less(rules[from as int].name@, name) {
        lemma_place_of(rules, name, from + 1);
    }
}

/// A list in the order of the names stays in that order when a rule is
/// added to it.
pub proof fn lemma_with_rule_ordered(rules: Seq<OptimizedRule>, rule: OptimizedRule)
    requires
        in_name_order(rules),
    ensures
        in_name_order(with_rule(rules, rule)),
{
    let name = rule.name@;
    let k = place_of(rules, name, 0) as int;
    lemma_place_of(rules, name, 0);
    let next = with_rule(rules, rule);
    if k < rules.len() && rules[k].name@ == name {
        assert forall|i: int, j: int| 0 <= i < j < next.len() implies name_less(
            #[trigger] next[i].name@,
            #[trigger] next[j].name@,
        ) by {
            assert(name_less(rules[i].name@, rules[j].name@));
        }
    } else {
        assert forall|i: int, j: int| 0 <= i < j < next.len() implies name_less(
            #[trigger] next[i].name@,
            #[trigger] next[j].name@,
        ) by {
            let a = if i < k {
                i
            } else {
                i - 1
            };
            let b = if j < k {
                j
            } else {
                j - 1
            };
            if i == k {
                // the new rule stands before all that follow it
                assert(next[j] == rules[j - 1]);
                lemma_names_total(name, rules[k].name@);
                if j - 1 > k {
                    assert(name_less(rules[k].name@, rules[j - 1].name@));
                    lemma_bytes_transitive(
                        bytes_of(name),
                        bytes_of(rules[k].name@),
                        bytes_of(rules[j - 1].name@),
                    );
                }
            } else if j == k {
                assert(next[i] == rules[i]);
            } else {
                assert(next[i] == rules[a]);
                assert(next[j] == rules[b]);
                assert(name_less(rules[a].name@, rules[b].name@));
            }
        }
    }
}

/// A list in the order of the names stays in that order when rules are
/// added to it.
pub proof fn lemma_with_rules_ordered(rules: Seq<OptimizedRule>, more: Seq<OptimizedRule>)
    requires
        in_name_order(rules),
    ensures
        in_name_order(with_rules(rules, more)),
    decreases more.len(),
{
    if more.len() > 0 {
        lemma_with_rules_ordered(rules, more.drop_last());
        lemma_with_rule_ordered(with_rules(rules, more.drop_last()), more.last());
    }
}

/// Puts one more rule into a list that is kept in the order of the names.
pub fn add_rule(rules: &mut Vec<OptimizedRule>, rule: OptimizedRule)
    ensures
        final(rules)@ == with_rule(old(rules)@, rule),
{
    let mut k: usize = 0;
    while k < rules.len() && name_before(rules[k].name.as_str(), rule.name.as_str())
        invariant
            k <= rules.len(),
            place_of(rules@, rule.name@, 0) == place_of(rules@, rule.name@, k as nat),
        decreases rules.len() - k,
    {
        k += 1;
    }
    if k < rules.len() && rules[k].name == rule.name {
        rules.set(k, rule);
    } else {
        rules.insert(k, rule);
    }
}

/// Puts the rules into a list that is kept in the order of the names,
/// one after the other.
pub fn add_rules(rules: &mut Vec<OptimizedRule>, more: Vec<OptimizedRule>)
    ensures
        final(rules)@ == with_rules(old(rules)@, more@),
{
    let mut more = more;
    let mut reversed: Vec<OptimizedRule> = Vec::new();
    let ghost all = more@;
    while more.len() > 0
        invariant
            more@.len() + reversed@.len() == all.len(),
            more@ == all.take(more@.len() as int),
            forall|i: int|
                0 <= i < reversed@.len() ==> (#[trigger] reversed@[i]) == all[all.len() - 1 - i],
        decreases more.len(),
    {
        let ghost n = more@.len();
        match more.pop() {
            Some(rule) => {
                reversed.push(rule);
                assert(more@ =~= all.take(n - 1));
            },
            None => {},
        }
    }
    assert(all.take(0) =~= Seq::<OptimizedRule>::empty());
    while reversed.len() > 0
        invariant
            reversed@.len() <= all.len(),
            forall|i: int|
                0 <= i < reversed@.len() ==> (#[trigger] reversed@[i]) == all[all.len() - 1 - i],
            rules@ == with_rules(old(rules)@, all.take(all.len() - reversed@.len())),
        decreases reversed.len(),
    {
        let ghost done = all.len() - reversed@.len();
        match reversed.pop() {
            Some(rule) => {
                proof {
                    assert(rule == all[done]);
                    assert(all.take(done + 1).drop_last() =~= all.take(done));
                    assert(all.take(done + 1).last() == rule);
                }
                add_rule(rules, rule);
            },
            None => {},
        }
    }
    assert(all.take(all.len() as int) =~= all);
}

/// The list with the rules of several lists, one list after the other.
pub open spec fn with_all(rules: Seq<OptimizedRule>, lists: Seq<Seq<OptimizedRule>>) -> Seq<
    OptimizedRule,
>
    decreases lists.len(),
{
    if lists.len() == 0 {
        rules
    } else {
        with_rules(with_all(rules, lists.drop_last()), lists.last())
    }
}

/// The rules of several lists.
pub open spec fn lists_of(parsed: Seq<Vec<OptimizedRule>>) -> Seq<Seq<OptimizedRule>> {
    Seq::new(parsed.len(), |i: int| parsed[i]@)
}

/// A list in the order of the names stays in that order when the rules of
/// several lists are added to it.
pub proof fn lemma_with_all_ordered(rules: Seq<OptimizedRule>, lists: Seq<Seq<OptimizedRule>>)
    requires
        in_name_order(rules),
    ensures
        in_name_order(with_all(rules, lists)),
    decreases lists.len(),
{
    if lists.len() > 0 {
        lemma_with_all_ordered(rules, lists.drop_last());
        lemma_with_rules_ordered(with_all(rules, lists.drop_last()), lists.last());
    }
}

/// The rules of several grammars, as they were parsed one grammar after
/// the other, in the order of their names: a rule that a later grammar
/// gives again stands in place of the earlier one.
pub fn get_all_rules(parsed: Vec<Vec<OptimizedRule>>) -> (r: Vec<OptimizedRule>)
    ensures
        r@ == with_all(Seq::empty(), lists_of(parsed@)),
        in_name_order(r@),
{
    let ghost all = lists_of(parsed@);
    let mut parsed = parsed;
    let mut reversed: Vec<Vec<OptimizedRule>> = Vec::new();
    while parsed.len() > 0
        invariant
            parsed@.len() + reversed@.len() == all.len(),
            forall|i: int| 0 <= i < parsed@.len() ==> (#[trigger] parsed@[i])@ == all[i],
            forall|i: int|
                0 <= i < reversed@.len() ==> (#[trigger] reversed@[i])@ == all[all.len() - 1 - i],
        decreases parsed.len(),
    {
        match parsed.pop() {
            Some(list) => {
                reversed.push(list);
            },
            None => {},
        }
    }
    let mut rules: Vec<OptimizedRule> = Vec::new();
    assert(all.take(0) =~= Seq::<Seq<OptimizedRule>>::empty());
    while reversed.len() > 0
        invariant
            reversed@.len() <= all.len(),
            forall|i: int|
                0 <= i < reversed@.len() ==> (#[trigger] reversed@[i])@ == all[all.len() - 1 - i],
            rules@ == with_all(Seq::empty(), all.take(all.len() - reversed@.len())),
        decreases reversed.len(),
    {
        let ghost done = all.len() - reversed@.len();
        match reversed.pop() {
            Some(list) => {
                proof {
                    assert(list@ == all[done]);
                    assert(all.take(done + 1).drop_last() =~= all.take(done));
                    assert(all.take(done + 1).last() == list@);
                }
                add_rules(&mut rules, list);
            },
            None => {},
        }
    }
    proof {
        assert(all.take(all.len() as int) =~= all);
        lemma_with_all_ordered(Seq::empty(), all);
    }
    rules
}

} // verus!
