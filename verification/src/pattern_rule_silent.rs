//! The entry procedures of a silent rule, which leaves no label of its
//! own.
use vstd::prelude::*;
use crate::diagnosis::{failure_body, full_outcome, remaining_at};
use crate::error::{Error, ErrorKind};
use crate::grammar::Grammar;
use crate::matcher::{parse, quick_parse};
use crate::pattern_outer::{quick_outcome, Ident};
use crate::semantics::run_body;

verus! {

/// The quick entry procedure of a silent rule: that of the rule's body.
///
/// Entering the rule takes one from the budget; with none left, with no
/// such rule or with a position past the input it does not match.
#[allow(non_snake_case)]
pub fn quick_parse_RuleVariant(
    grammar: &Grammar,
    rule: usize,
    input: &[u8],
    pos: usize,
    budget: usize,
    idents: &mut Vec<(Ident, usize)>,
) -> (r: Option<usize>)
    ensures
        quick_outcome(
            run_body(grammar@, rule as nat, input@, pos as nat, budget as nat),
            r,
            old(idents)@,
            final(idents)@,
        ),
    decreases input.len() - pos, budget, 0nat,
{
    if rule >= grammar.len() || pos > input.len() || budget == 0 {
        return None;
    }
    quick_parse(grammar, &grammar.rule(rule).expr, input, pos, budget - 1, idents)
}


/// The full entry procedure of a silent rule: that of the rule's body.
/// Where the rule cannot be entered, the error says that the rule was
/// expected.
#[allow(non_snake_case)]
pub fn parse_RuleVariant(
    grammar: &Grammar,
    rule: usize,
    input: &[u8],
    pos: usize,
    budget: usize,
    idents: &mut Vec<(Ident, usize)>,
) -> (r: Result<usize, Error>)
    ensures
        full_outcome(
            run_body(grammar@, rule as nat, input@, pos as nat, budget as nat),
            failure_body(grammar@, rule as nat, input@, pos as nat, budget as nat),
            r,
            old(idents)@,
            final(idents)@,
        ),
    decreases input.len() - pos, budget, 0nat,
{
    if rule >= grammar.len() {
        return Err(Error::at(ErrorKind::expected("rule"), remaining_at(input, pos), "rule"));
    }
    if pos > input.len() || budget == 0 {
        let name = grammar.rule(rule).name.as_str();
        return Err(Error::at(ErrorKind::expected(name), remaining_at(input, pos), name));
    }
    parse(grammar, &grammar.rule(rule).expr, input, pos, budget - 1, idents)
}

} // verus!
