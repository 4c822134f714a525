//! The rule table that the matchers run on.
use vstd::prelude::*;
use vstd::string::*;
use crate::expr::FPestExpr;
use crate::semantics::{find_from, find_rule, RuleModel};

verus! {

/// A rule: its name, whether it is silent, and its reduced body.
#[derive(Debug)]
pub struct GrammarRule {
    pub name: String,
    /// A silent rule leaves no label of its own.
    pub silent: bool,
    pub expr: FPestExpr,
}

impl View for GrammarRule {
    type V = RuleModel;

    open spec fn view(&self) -> RuleModel {
        RuleModel { name: self.name@, silent: self.silent, expr: self.expr@ }
    }
}

/// The models of a list of rules.
pub open spec fn rule_models(rules: Seq<GrammarRule>) -> Seq<RuleModel> {
    Seq::new(rules.len(), |i: int| rules[i]@)
}

/// The first rule of the list that has the name.
pub fn find_in(rules: &Vec<GrammarRule>, name: &str) -> (r: Option<usize>)
    ensures
        match r {
            Some(k) => find_rule(rule_models(rules@), name@) == Some(k as nat) && k < rules.len(),
            None => find_rule(rule_models(rules@), name@) is None,
        },
{
    let wanted = String::from_str(name);
    let mut i: usize = 0;
    while i < rules.len()
        invariant
            i <= rules.len(),
            wanted@ == name@,
            find_rule(rule_models(rules@), name@) == find_from(
                rule_models(rules@),
                name@,
                i as nat,
            ),
        decreases rules.len() - i,
    {
        assert(rule_models(rules@)[i as int].name == rules@[i as int].name@);
        if rules[i].name == wanted {
            return Some(i);
        }
        i += 1;
    }
    None
}

/// A grammar: its rules, in the order of the rule table.
#[derive(Debug)]
pub struct Grammar {
    rules: Vec<GrammarRule>,
    whitespace: Option<usize>,
}

impl View for Grammar {
    type V = Seq<RuleModel>;

    closed spec fn view(&self) -> Seq<RuleModel> {
        rule_models(self.rules@)
    }
}

impl Grammar {
    #[verifier::type_invariant]
    spec fn well_formed(self) -> bool {
        match self.whitespace {
            Some(k) => find_rule(rule_models(self.rules@), "WHITESPACE"@) == Some(k as nat) && k
                < self.rules.len(),
            None => find_rule(rule_models(self.rules@), "WHITESPACE"@) is None,
        }
    }

    /// The grammar of the given rules.
    pub fn new(rules: Vec<GrammarRule>) -> (g: Grammar)
        ensures
            g@ == rule_models(rules@),
    {
        let whitespace = find_in(&rules, "WHITESPACE");
        Grammar { rules, whitespace }
    }

    /// The number of rules.
    pub fn len(&self) -> (n: usize)
        ensures
            n == self@.len(),
    {
        self.rules.len()
    }

    /// The rule at a place of the rule table.
    pub fn rule(&self, k: usize) -> (r: &GrammarRule)
        requires
            k < self@.len(),
        ensures
            r@ == self@[k as int],
    {
        &self.rules[k]
    }

    /// The first rule with the given name.
    pub fn find(&self, name: &str) -> (r: Option<usize>)
        ensures
            match r {
                Some(k) => find_rule(self@, name@) == Some(k as nat) && k < self@.len(),
                None => find_rule(self@, name@) is None,
            },
    {
        find_in(&self.rules, name)
    }

    /// The rule that is skipped between the items of sequences and
    /// repetitions, if the grammar has one: the first rule named
    /// `WHITESPACE`.
    pub fn whitespace(&self) -> (r: Option<usize>)
        ensures
            match r {
                Some(k) => find_rule(self@, "WHITESPACE"@) == Some(k as nat) && k < self@.len(),
                None => find_rule(self@, "WHITESPACE"@) is None,
            },
    {
        proof {
            use_type_invariant(self);
        }
        self.whitespace
    }
}

} // verus!
