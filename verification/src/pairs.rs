//! The parse tree behind the interface of `pest`: pairs that share the
//! tree, and hand out spans of `pest`.
use std::rc::Rc;
use vstd::prelude::*;
use vstd::string::*;
use crate::ident::{nested, siblings, IdentList};
use crate::pattern_outer::{Ident, Rule};
use crate::text::sliceable;

verus! {

/// `pest::Span`, of which nothing is known here but that it is a type.
#[verifier::external_type_specification]
#[verifier::external_body]
pub struct ExSpan<'i>(pest::Span<'i>);

/// `pest::Span::new`: a span of the input from `start` to `end`, counted
/// in bytes. There is one exactly where `input[start..end]` is a valid
/// index into the input: where the two places lie inside the input, the
/// first no later than the second, both on boundaries of characters.
#[verifier::external_body]
pub(crate) fn new_span<'i>(input: &'i str, start: usize, end: usize) -> (r: Option<pest::Span<'i>>)
    ensures
        r is Some <==> sliceable(input.spec_bytes(), start as int, end as int),
{
    pest::Span::new(input, start, end)
}

/// A second handle on a shared value: `Rc::clone` of the standard
/// library, which hands back a pointer to the same value.
#[verifier::external_body]
pub(crate) fn share<T>(value: &Rc<T>) -> (r: Rc<T>)
    ensures
        r == *value,
{
    Rc::clone(value)
}

/// A node of a parse tree that shares the tree.
pub struct Pair2<'i> {
    tree: Rc<IdentList<'i>>,
    start: usize,
    end: usize,
}

/// A walk over nodes that stand side by side, which shares the tree.
pub struct Pairs2<'i> {
    tree: Rc<IdentList<'i>>,
    at: usize,
    end: usize,
}

impl<'i> Pair2<'i> {
    #[verifier::type_invariant]
    spec fn well_formed(self) -> bool {
        self.start < self.end <= self.tree@.len()
    }

    /// The tree that the node belongs to.
    pub closed spec fn list(&self) -> IdentList<'i> {
        *self.tree
    }

    /// The index of the node's entry.
    pub closed spec fn index(&self) -> usize {
        self.start
    }

    /// The index one past the last entry below the node.
    pub closed spec fn bound(&self) -> usize {
        self.end
    }

    /// The label of the node.
    pub fn ident(&self) -> (r: Ident)
        ensures
            self.index() < self.list()@.len(),
            r == self.list()@[self.index() as int].0,
    {
        proof {
            use_type_invariant(self);
        }
        self.tree.entry(self.start).0
    }

    /// The rule that matched.
    pub fn as_rule(&self) -> (r: Rule)
        ensures
            self.index() < self.list()@.len(),
            r == self.list()@[self.index() as int].0.rule,
    {
        self.ident().rule
    }

    /// The text that the rule matched, where it starts and ends on
    /// boundaries of characters of the input.
    pub fn as_str(&self) -> (r: Option<&'i str>)
        ensures
            self.index() < self.list()@.len(),
            r is Some <==> sliceable(
                self.list().text().spec_bytes(),
                self.list()@[self.index() as int].0.start as int,
                self.list()@[self.index() as int].0.end as int,
            ),
            r matches Some(part) ==> part.spec_bytes() == self.list().text().spec_bytes().subrange(
                self.list()@[self.index() as int].0.start as int,
                self.list()@[self.index() as int].0.end as int,
            ),
    {
        self.ident().as_str(self.tree.input())
    }

    /// The span of `pest` over the bytes that the rule matched, where
    /// they start and end on boundaries of characters of the input.
    pub fn as_span(&self) -> (r: Option<pest::Span<'i>>)
        ensures
            self.index() < self.list()@.len(),
            r is Some <==> sliceable(
                self.list().text().spec_bytes(),
                self.list()@[self.index() as int].0.start as int,
                self.list()@[self.index() as int].0.end as int,
            ),
    {
        let label = self.ident();
        new_span(self.tree.input(), label.start, label.end)
    }

    /// The span of `pest` over the bytes that the rule matched.
    pub fn into_span(self) -> (r: Option<pest::Span<'i>>)
        ensures
            self.index() < self.list()@.len(),
            r is Some <==> sliceable(
                self.list().text().spec_bytes(),
                self.list()@[self.index() as int].0.start as int,
                self.list()@[self.index() as int].0.end as int,
            ),
    {
        self.as_span()
    }

    /// The nodes directly below the node.
    pub fn inner(&self) -> (r: Pairs2<'i>)
        ensures
            r.list() == self.list(),
            r.remaining() == siblings(self.list()@, self.index() as int + 1, self.bound() as int),
    {
        proof {
            use_type_invariant(self);
        }
        Pairs2 { tree: share(&self.tree), at: self.start + 1, end: self.end }
    }

    /// The nodes directly below the node.
    pub fn into_inner(self) -> (r: Pairs2<'i>)
        ensures
            r.list() == self.list(),
            r.remaining() == siblings(self.list()@, self.index() as int + 1, self.bound() as int),
    {
        proof {
            use_type_invariant(&self);
        }
        Pairs2 { tree: self.tree, at: self.start + 1, end: self.end }
    }
}

impl<'i> Pairs2<'i> {
    #[verifier::type_invariant]
    spec fn well_formed(self) -> bool {
        self.at <= self.end <= self.tree@.len()
    }

    /// The tree that is walked.
    pub closed spec fn list(&self) -> IdentList<'i> {
        *self.tree
    }

    /// The indices of the nodes that are still to come.
    pub closed spec fn remaining(&self) -> Seq<int> {
        siblings(self.tree@, self.at as int, self.end as int)
    }

    /// The walk over the nodes at the top of a label list on an input,
    /// where the list is nested and its labels span bytes of the input.
    pub fn from_idents(idents: Vec<(Ident, usize)>, initial_text: &'i str) -> (r: Option<
        Pairs2<'i>,
    >)
        ensures
            r is Some <==> nested(idents@) && crate::ident::spans_inside(
                idents@,
                initial_text.spec_bytes().len(),
            ),
            r matches Some(pairs) ==> pairs.list()@ == idents@ && pairs.list().text()
                == initial_text && pairs.remaining() == siblings(idents@, 0, idents@.len() as int),
    {
        match IdentList::from_idents(idents, initial_text) {
            Some(list) => Some(Pairs2::from_list(list)),
            None => None,
        }
    }

    /// The walk over the nodes at the top of a tree.
    pub fn from_list(list: IdentList<'i>) -> (r: Pairs2<'i>)
        ensures
            r.list() == list,
            r.remaining() == siblings(list@, 0, list@.len() as int),
    {
        let end = list.len();
        Pairs2 { tree: Rc::new(list), at: 0, end }
    }

    /// The next node, if one is left.
    pub fn next(&mut self) -> (r: Option<Pair2<'i>>)
        ensures
            final(self).list() == old(self).list(),
            match r {
                Some(node) => old(self).remaining().len() > 0 && node.list() == old(self).list()
                    && node.index() == old(self).remaining()[0] && node.bound() == old(
                    self,
                ).list()@[node.index() as int].1 && final(self).remaining() == old(
                    self,
                ).remaining().drop_first(),
                None => old(self).remaining().len() == 0 && final(self).remaining() == old(
                    self,
                ).remaining(),
            },
    {
        proof {
            use_type_invariant(&*self);
        }
        if self.at >= self.end {
            return None;
        }
        let total = self.tree.len();
        let start = self.at;
        let end = self.tree.entry(start).1;
        let ghost list = self.tree@;
        let ghost bound = self.end;
        let node = Pair2 { tree: share(&self.tree), start, end };
        let next = if end > self.end {
            self.end
        } else {
            end
        };
        proof {
            assert(siblings(list, start as int, bound as int).drop_first() =~= siblings(
                list,
                next as int,
                bound as int,
            ));
        }
        *self = Pairs2 { tree: share(&self.tree), at: next, end: self.end };
        Some(node)
    }
}

} // verus!
