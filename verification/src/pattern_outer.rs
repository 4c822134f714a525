//! The names of rules and the labels that matching leaves.
use vstd::prelude::*;
use vstd::string::*;
use crate::semantics::{Label, Matched};
use crate::text::{slice_of, sliceable};

verus! {

/// Names a rule of a grammar by its place in the rule table.
#[derive(Debug, Clone, Copy, PartialEq, Eq, Structural, Hash, PartialOrd, Ord)]
pub struct Rule(pub usize);

/// The label of a matched rule: the rule and the bytes it matched, from
/// `start` up to `end` in the input.
#[derive(Debug, Clone, Copy, PartialEq, Eq, Structural)]
pub struct Ident {
    pub rule: Rule,
    pub start: usize,
    pub end: usize,
}

impl Ident {
    /// The rule that matched.
    pub fn as_rule(&self) -> (r: Rule)
        ensures
            r == self.rule,
    {
        self.rule
    }

    /// The text that the rule matched in the input, where it starts and
    /// ends on boundaries of characters of the input.
    pub fn as_str<'i>(&self, input: &'i str) -> (r: Option<&'i str>)
        ensures
            r is Some <==> sliceable(input.spec_bytes(), self.start as int, self.end as int),
            r matches Some(part) ==> part.spec_bytes() == input.spec_bytes().subrange(
                self.start as int,
                self.end as int,
            ),
    {
        slice_of(input, self.start, self.end)
    }
}

/// The entry of the label list that stands for a label at index `at`: the
/// label, and the index one past the last label below it.
pub open spec fn entry_of(label: Label, at: nat) -> (Ident, usize) {
    (
        Ident {
            rule: Rule(label.rule as usize),
            start: label.start as usize,
            end: label.end as usize,
        },
        (at + label.size) as usize,
    )
}

/// The entries that stand for the labels once they are appended to a
/// list of length `base`.
pub open spec fn placed(labels: Seq<Label>, base: nat) -> Seq<(Ident, usize)> {
    Seq::new(labels.len(), |i: int| entry_of(labels[i], (base + i) as nat))
}

/// Appending two runs of labels places the second after the first.
pub proof fn lemma_placed_concat(a: Seq<Label>, b: Seq<Label>, base: nat)
    ensures
        placed(a + b, base) == placed(a, base) + placed(b, base + a.len()),
{
    assert(placed(a + b, base) =~= placed(a, base) + placed(b, base + a.len()));
}

/// No labels, no entries.
pub proof fn lemma_placed_empty(base: nat)
    ensures
        placed(Seq::<Label>::empty(), base) == Seq::<(Ident, usize)>::empty(),
{
    assert(placed(Seq::<Label>::empty(), base) =~= Seq::<(Ident, usize)>::empty());
}

/// How the quick procedure of a node answers a match or its absence: it
/// returns the position after the match and appends the labels of the
/// match to the list, or returns nothing and leaves the list as it was.
pub open spec fn quick_outcome(
    m: Option<Matched>,
    r: Option<usize>,
    before: Seq<(Ident, usize)>,
    after: Seq<(Ident, usize)>,
) -> bool {
    match m {
        Some(x) => r == Some(x.pos as usize) && after == before + placed(x.labels, before.len()),
        None => r is None && after == before,
    }
}

/// How the quick procedure of a node that leaves no labels answers.
pub open spec fn quick_answer(m: Option<Matched>, r: Option<usize>) -> bool {
    match m {
        Some(x) => r == Some(x.pos as usize),
        None => r is None,
    }
}

} // verus!
