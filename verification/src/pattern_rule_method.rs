//! The entry point of a rule: from an input to its parse tree.
use vstd::prelude::*;
use vstd::string::*;
use crate::diagnosis::failure_body;
use crate::error::Error;
use crate::forest::lemma_run_rule_sound;
use crate::grammar::Grammar;
use crate::ident::siblings;
use crate::ident::{lemma_placed_nested, IdentList};
use crate::matcher::{parse_rule, quick_parse_rule};
use crate::pairs::Pairs2;
use crate::pattern_outer::{placed, Ident, Rule};
use crate::semantics::run_rule;

verus! {

/// Parses an input with a rule of a grammar.
///
/// The quick procedure of the rule runs first, from the start of the
/// input. Where it matches, the labels that it left are the parse tree.
/// Where it does not, the list is emptied and the full procedure runs on
/// the same input for the error.
///
/// The budget is the number of rules of the grammar: a rule that is
/// entered again before a byte is consumed cannot match.
#[allow(non_snake_case)]
pub fn parse_RuleVariant<'i>(grammar: &Grammar, rule: usize, input: &'i str) -> (r: Result<
    IdentList<'i>,
    Error,
>)
    ensures
        match run_rule(grammar@, rule as nat, input.spec_bytes(), 0, grammar@.len()) {
            Some(m) => r matches Ok(list) && list@ == placed(m.labels, 0) && list.text() == input,
            None => r matches Err(e) && e@ == failure_body(
                grammar@,
                rule as nat,
                input.spec_bytes(),
                0,
                grammar@.len(),
            ),
        },
{
    let bytes = input.as_bytes();
    let length = bytes.len();
    let budget = grammar.len();
    let mut idents: Vec<(Ident, usize)> = Vec::with_capacity(500);
    proof {
        lemma_run_rule_sound(grammar@, rule as nat, bytes@, 0, budget as nat);
    }
    if quick_parse_rule(grammar, rule, bytes, 0, budget, &mut idents).is_some() {
        let count = idents.len();
        proof {
            let m = run_rule(grammar@, rule as nat, bytes@, 0, budget as nat)->0;
            assert(idents@ =~= placed(m.labels, 0));
            assert(count == m.labels.len());
            lemma_placed_nested(m.labels, bytes@.len(), grammar@.len());
        }
        return Ok(IdentList::from_nested(idents, input));
    }
    idents.clear();
    match parse_rule(grammar, rule, bytes, 0, budget, &mut idents) {
        Ok(_) => Ok(IdentList::from_nested(idents, input)),
        Err(e) => Err(e),
    }
}

impl Grammar {
    /// Parses an input with a rule, and hands back the nodes at the top
    /// of the parse tree, behind the interface of `pest`.
    ///
    /// The full procedure of the rule runs from the start of the input.
    pub fn parse<'i>(&self, rule: Rule, input: &'i str) -> (r: Result<Pairs2<'i>, Error>)
        ensures
            match run_rule(self@, rule.0 as nat, input.spec_bytes(), 0, self@.len()) {
                Some(m) => r matches Ok(pairs) && pairs.list()@ == placed(m.labels, 0)
                    && pairs.list().text() == input && pairs.remaining() == siblings(
                    placed(m.labels, 0),
                    0,
                    m.labels.len() as int,
                ),
                None => r matches Err(e) && e@ == failure_body(
                    self@,
                    rule.0 as nat,
                    input.spec_bytes(),
                    0,
                    self@.len(),
                ),
            },
    {
        let bytes = input.as_bytes();
        let length = bytes.len();
        let budget = self.len();
        let mut idents: Vec<(Ident, usize)> = Vec::with_capacity(500);
        proof {
            lemma_run_rule_sound(self@, rule.0 as nat, bytes@, 0, budget as nat);
        }
        match parse_rule(self, rule.0, bytes, 0, budget, &mut idents) {
            Ok(_) => {
                let count = idents.len();
                proof {
                    let m = run_rule(self@, rule.0 as nat, bytes@, 0, budget as nat)->0;
                    assert(idents@ =~= placed(m.labels, 0));
                    assert(count == m.labels.len());
                    lemma_placed_nested(m.labels, bytes@.len(), self@.len());
                }
                Ok(Pairs2::from_list(IdentList::from_nested(idents, input)))
            },
            Err(e) => Err(e),
        }
    }
}

} // verus!
