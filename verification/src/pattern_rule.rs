//! The entry procedures of a rule that leaves a label.
use vstd::prelude::*;
use crate::diagnosis::{failure_body, full_outcome, remaining_at};
use crate::error::{Error, ErrorKind};
use crate::grammar::Grammar;
use crate::matcher::{parse, quick_parse};
use crate::pattern_outer::{entry_of, placed, quick_outcome, Ident, Rule};
use crate::semantics::{labelled, run_body, Label};

verus! {

/// The list after a rule has put its label in the slot that it reserved
/// before its body was matched.
pub proof fn lemma_label_placed(
    before: Seq<(Ident, usize)>,
    slot: (Ident, usize),
    top: Label,
    below: Seq<Label>,
)
    requires
        top.size == 1 + below.len(),
    ensures
        (before + seq![slot] + placed(below, before.len() + 1)).update(
            before.len() as int,
            entry_of(top, before.len()),
        ) == before + placed(seq![top] + below, before.len()),
{
    let a = (before + seq![slot] + placed(below, before.len() + 1)).update(
        before.len() as int,
        entry_of(top, before.len()),
    );
    let b = before + placed(seq![top] + below, before.len());
    assert(a.len() == b.len());
    assert forall|i: int| 0 <= i < a.len() implies a[i] == b[i] by {
        if i > before.len() {
            let j = i - before.len() - 1;
            assert(a[i] == placed(below, before.len() + 1)[j]);
            assert((seq![top] + below)[j + 1] == below[j]);
        }
    }
    assert(a =~= b);
}

/// The quick entry procedure of a rule that leaves a label.
///
/// A slot is reserved in the list before the body is matched. When the
/// body has matched, the slot takes the rule's label, with the bytes that
/// were consumed and the length of the list as the end of the labels
/// below it. When it has not, the list is cut back to what it was.
#[allow(non_snake_case)]
pub fn quick_parse_RuleVariant(
    grammar: &Grammar,
    rule: usize,
    input: &[u8],
    pos: usize,
    budget: usize,
    idents: &mut Vec<(Ident, usize)>,
) -> (r: Option<usize>)
    ensures
        quick_outcome(
            labelled(
                rule as nat,
                pos as nat,
                run_body(grammar@, rule as nat, input@, pos as nat, budget as nat),
            ),
            r,
            old(idents)@,
            final(idents)@,
        ),
    decreases input.len() - pos, budget, 0nat,
{
    if rule >= grammar.len() || pos > input.len() || budget == 0 {
        return None;
    }
    let idents_len = idents.len();
    let slot = (Ident { rule: Rule(rule), start: pos, end: pos }, idents_len);
    idents.push(slot);
    match quick_parse(grammar, &grammar.rule(rule).expr, input, pos, budget - 1, idents) {
        Some(new_pos) => {
            let end = idents.len();
            idents.set(idents_len, (Ident { rule: Rule(rule), start: pos, end: new_pos }, end));
            proof {
                let body = run_body(grammar@, rule as nat, input@, pos as nat, budget as nat)->0;
                let top = Label {
                    rule: rule as nat,
                    start: pos as nat,
                    end: body.pos,
                    size: 1 + body.labels.len(),
                };
                crate::forest::lemma_run_sound(
                    grammar@,
                    grammar@[rule as int].expr,
                    input@,
                    pos as nat,
                    (budget - 1) as nat,
                );
                lemma_label_placed(old(idents)@, slot, top, body.labels);
                assert(old(idents)@.push(slot) =~= old(idents)@ + seq![slot]);
            }
            Some(new_pos)
        },
        None => {
            idents.truncate(idents_len);
            assert(idents@ =~= old(idents)@);
            None
        },
    }
}


/// The full entry procedure of a rule that leaves a label: as the quick
/// one, with the error of the body where the body does not match.
#[allow(non_snake_case)]
pub fn parse_RuleVariant(
    grammar: &Grammar,
    rule: usize,
    input: &[u8],
    pos: usize,
    budget: usize,
    idents: &mut Vec<(Ident, usize)>,
) -> (r: Result<usize, Error>)
    ensures
        full_outcome(
            labelled(
                rule as nat,
                pos as nat,
                run_body(grammar@, rule as nat, input@, pos as nat, budget as nat),
            ),
            failure_body(grammar@, rule as nat, input@, pos as nat, budget as nat),
            r,
            old(idents)@,
            final(idents)@,
        ),
    decreases input.len() - pos, budget, 0nat,
{
    if rule >= grammar.len() {
        return Err(Error::at(ErrorKind::expected("rule"), remaining_at(input, pos), "rule"));
    }
    if pos > input.len() || budget == 0 {
        let name = grammar.rule(rule).name.as_str();
        return Err(Error::at(ErrorKind::expected(name), remaining_at(input, pos), name));
    }
    let idents_len = idents.len();
    let slot = (Ident { rule: Rule(rule), start: pos, end: pos }, idents_len);
    idents.push(slot);
    match parse(grammar, &grammar.rule(rule).expr, input, pos, budget - 1, idents) {
        Ok(new_pos) => {
            let end = idents.len();
            idents.set(idents_len, (Ident { rule: Rule(rule), start: pos, end: new_pos }, end));
            proof {
                let body = run_body(grammar@, rule as nat, input@, pos as nat, budget as nat)->0;
                let top = Label {
                    rule: rule as nat,
                    start: pos as nat,
                    end: body.pos,
                    size: 1 + body.labels.len(),
                };
                crate::forest::lemma_run_sound(
                    grammar@,
                    grammar@[rule as int].expr,
                    input@,
                    pos as nat,
                    (budget - 1) as nat,
                );
                lemma_label_placed(old(idents)@, slot, top, body.labels);
                assert(old(idents)@.push(slot) =~= old(idents)@ + seq![slot]);
            }
            Ok(new_pos)
        },
        Err(e) => {
            idents.truncate(idents_len);
            assert(idents@ =~= old(idents)@);
            Err(e)
        },
    }
}

} // verus!
