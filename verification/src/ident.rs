//! The parse tree: the label list together with the input that its labels
//! point into, and the cursors that walk it.
use std::borrow::Cow;
use vstd::prelude::*;
use vstd::slice::slice_subrange;
use vstd::string::*;
use crate::error::span_text;
use crate::forest::{forest, spans_within};
use crate::pattern_outer::{placed, Ident, Rule};
use crate::semantics::Label;
use crate::text::{slice_of, sliceable};

verus! {

/// The entries are the nodes of a forest in list order: every entry ends
/// after itself and inside the list, and no entry reaches past the end of
/// an entry that it stands below.
pub open spec fn nested(list: Seq<(Ident, usize)>) -> bool {
    &&& forall|i: int| 0 <= i < list.len() ==> i < (#[trigger] list[i]).1 <= list.len()
    &&& forall|i: int, j: int|
        0 <= i < j < list.len() && j < (#[trigger] list[i]).1 ==> (#[trigger] list[j]).1
            <= list[i].1
}

/// Every label spans bytes of an input of the given length.
pub open spec fn spans_inside(list: Seq<(Ident, usize)>, len: nat) -> bool {
    forall|i: int| 0 <= i < list.len() ==> (#[trigger] list[i]).0.start <= list[i].0.end <= len
}

/// The entries of a forest of labels are nested.
pub proof fn lemma_placed_nested(labels: Seq<Label>, len: nat, rules: nat)
    requires
        forest(labels),
        spans_within(labels, 0, len, rules),
        labels.len() <= usize::MAX,
        len <= usize::MAX,
    ensures
        nested(placed(labels, 0)),
        spans_inside(placed(labels, 0), len),
{
    let list = placed(labels, 0);
    assert forall|i: int| 0 <= i < list.len() implies i < (#[trigger] list[i]).1 <= list.len() by {
        assert(1 <= labels[i].size && i + labels[i].size <= labels.len());
    }
    assert forall|i: int, j: int|
        0 <= i < j < list.len() && j < (#[trigger] list[i]).1 implies (#[trigger] list[j]).1
        <= list[i].1 by {
        assert(1 <= labels[i].size && i + labels[i].size <= labels.len());
        assert(1 <= labels[j].size && j + labels[j].size <= labels.len());
        assert(j + labels[j].size <= i + labels[i].size);
    }
    assert forall|i: int| 0 <= i < list.len() implies (#[trigger] list[i]).0.start
        <= list[i].0.end <= len by {
        assert(labels[i].start <= labels[i].end <= len);
    }
}

/// The siblings that stand in the list from `lo` up to `hi`: the entry at
/// `lo`, then the entry where that one ends, and so on.
pub open spec fn siblings(list: Seq<(Ident, usize)>, lo: int, hi: int) -> Seq<int>
    decreases hi - lo,
{
    if lo < 0 || lo >= hi || hi > list.len() || list[lo].1 <= lo {
        Seq::empty()
    } else if list[lo].1 >= hi {
        seq![lo]
    } else {
        seq![lo] + siblings(list, list[lo].1 as int, hi)
    }
}

/// The walk from every sibling down: each sibling, then the walk through
/// what stands below it, then the siblings after it.
pub open spec fn walk(list: Seq<(Ident, usize)>, lo: int, hi: int) -> Seq<int>
    decreases hi - lo,
{
    if lo < 0 || lo >= hi || hi > list.len() || list[lo].1 <= lo || list[lo].1 > hi {
        Seq::empty()
    } else {
        seq![lo] + walk(list, lo + 1, list[lo].1 as int) + walk(list, list[lo].1 as int, hi)
    }
}

/// The indices from `lo` up to `hi`.
pub open spec fn indices(lo: int, hi: int) -> Seq<int> {
    Seq::new(
        if hi >= lo {
            (hi - lo) as nat
        } else {
            0
        },
        |i: int| lo + i,
    )
}

/// In a nested list, the walk from the siblings of a range down visits
/// every entry of the range exactly once, in list order.
pub proof fn lemma_walk_visits_all(list: Seq<(Ident, usize)>, lo: int, hi: int)
    requires
        nested(list),
        0 <= lo <= hi <= list.len(),
        forall|i: int| lo <= i < hi ==> (#[trigger] list[i]).1 <= hi,
    ensures
        walk(list, lo, hi) == indices(lo, hi),
    decreases hi - lo,
{
    if lo < hi {
        let end = list[lo].1 as int;
        assert(lo < end <= hi);
        assert forall|i: int| lo + 1 <= i < end implies (#[trigger] list[i]).1 <= end by {
            assert(list[lo].1 == end);
        }
        lemma_walk_visits_all(list, lo + 1, end);
        lemma_walk_visits_all(list, end, hi);
        assert(seq![lo] + indices(lo + 1, end) + indices(end, hi) =~= indices(lo, hi));
    } else {
        assert(walk(list, lo, hi) =~= indices(lo, hi));
    }
}

/// Each of the nodes begins where the one before it ends.
pub open spec fn adjacent(list: Seq<(Ident, usize)>, nodes: Seq<int>) -> bool {
    forall|k: int|
        0 <= k && k + 1 < nodes.len() ==> list[#[trigger] nodes[k + 1]].0.start
            == list[nodes[k]].0.end
}

/// The texts of the nodes, one after the other; a node that starts or
/// ends inside a character has no text.
pub open spec fn texts_joined(list: Seq<(Ident, usize)>, bytes: Seq<u8>, nodes: Seq<int>) -> Seq<
    char,
>
    decreases nodes.len(),
{
    if nodes.len() == 0 {
        Seq::empty()
    } else {
        texts_joined(list, bytes, nodes.drop_last()) + span_text(
            bytes,
            list[nodes.last()].0.start as int,
            list[nodes.last()].0.end as int,
        )
    }
}

/// The nodes can be joined without a copy: each begins where the one
/// before it ends, and the whole starts and ends on boundaries of
/// characters.
pub open spec fn joins_in_place(list: Seq<(Ident, usize)>, bytes: Seq<u8>, nodes: Seq<int>) -> bool {
    nodes.len() > 0 && adjacent(list, nodes) && crate::text::sliceable(
        bytes,
        list[nodes[0]].0.start as int,
        list[nodes.last()].0.end as int,
    )
}

/// The text of the nodes together: the part of the input from the start
/// of the first to the end of the last where they can be joined without
/// a copy, and the texts of the nodes one after the other where they
/// cannot.
pub open spec fn joined_all(list: Seq<(Ident, usize)>, bytes: Seq<u8>, nodes: Seq<int>) -> Seq<
    char,
> {
    if joins_in_place(list, bytes, nodes) {
        span_text(bytes, list[nodes[0]].0.start as int, list[nodes.last()].0.end as int)
    } else {
        texts_joined(list, bytes, nodes)
    }
}

/// The siblings of a range are the first of them and the siblings from
/// where that one ends.
pub proof fn lemma_siblings_step(list: Seq<(Ident, usize)>, lo: int, hi: int)
    requires
        nested(list),
        0 <= lo < hi <= list.len(),
    ensures
        siblings(list, lo, hi) == seq![lo] + siblings(list, list[lo].1 as int, hi),
{
    if list[lo].1 >= hi {
        assert(siblings(list, list[lo].1 as int, hi) =~= Seq::<int>::empty());
        assert(seq![lo] + Seq::<int>::empty() =~= seq![lo]);
    }
}

/// A parse tree: the label list and the input that it was matched on.
#[derive(Debug)]
pub struct IdentList<'i> {
    input: &'i str,
    all_idents: Vec<(Ident, usize)>,
}

impl<'i> View for IdentList<'i> {
    type V = Seq<(Ident, usize)>;

    closed spec fn view(&self) -> Seq<(Ident, usize)> {
        self.all_idents@
    }
}

impl<'i> IdentList<'i> {
    #[verifier::type_invariant]
    spec fn well_formed(self) -> bool {
        nested(self.all_idents@) && spans_inside(self.all_idents@, self.input.spec_bytes().len())
    }

    /// The input that the labels point into.
    pub closed spec fn text(&self) -> &'i str {
        self.input
    }

    /// The tree of the given label list on the given input, where the
    /// list is nested and its labels span bytes of the input.
    #[verifier::loop_isolation(false)]
    pub fn from_idents(idents: Vec<(Ident, usize)>, input: &'i str) -> (r: Option<IdentList<'i>>)
        ensures
            r is Some <==> nested(idents@) && spans_inside(idents@, input.spec_bytes().len()),
            r matches Some(list) ==> list@ == idents@ && list.text() == input,
    {
        let n = idents.len();
        let bytes = input.as_bytes();
        let len = bytes.len();
        let mut i: usize = 0;
        while i < n
            invariant
                i <= n,
                forall|a: int| 0 <= a < i ==> a < (#[trigger] idents@[a]).1 <= n,
                forall|a: int, b: int|
                    0 <= a < b < n && a < i && b < (#[trigger] idents@[a]).1 ==> (
                    #[trigger] idents@[b]).1 <= idents@[a].1,
                forall|a: int| 0 <= a < i ==> (#[trigger] idents@[a]).0.start <= idents@[a].0.end <= len,
            decreases n - i,
        {
            let end = idents[i].1;
            if end <= i || end > n {
                return None;
            }
            if idents[i].0.start > idents[i].0.end || idents[i].0.end > len {
                return None;
            }
            let mut j: usize = i + 1;
            while j < end
                invariant
                    i < j <= end <= n,
                    end == idents@[i as int].1,
                    forall|b: int| i < b < j ==> (#[trigger] idents@[b]).1 <= end,
                decreases end - j,
            {
                if idents[j].1 > end {
                    return None;
                }
                j += 1;
            }
            i += 1;
        }
        Some(IdentList { input, all_idents: idents })
    }

    /// The tree of a label list that is nested and whose labels span bytes
    /// of the input.
    pub fn from_nested(idents: Vec<(Ident, usize)>, input: &'i str) -> (r: IdentList<'i>)
        requires
            nested(idents@),
            spans_inside(idents@, input.spec_bytes().len()),
        ensures
            r@ == idents@,
            r.text() == input,
    {
        IdentList { input, all_idents: idents }
    }

    /// The number of entries. The entries of every tree are nested, and
    /// their labels span bytes of its input.
    pub fn len(&self) -> (n: usize)
        ensures
            n == self@.len(),
            nested(self@),
            spans_inside(self@, self.text().spec_bytes().len()),
    {
        proof {
            use_type_invariant(self);
        }
        self.all_idents.len()
    }

    /// The input that the labels point into.
    pub fn input(&self) -> (r: &'i str)
        ensures
            r == self.text(),
    {
        self.input
    }

    /// The entry at an index.
    pub fn entry(&self, idx: usize) -> (r: (Ident, usize))
        requires
            idx < self@.len(),
        ensures
            r == self@[idx as int],
    {
        self.all_idents[idx]
    }

    /// The node at an index, with the entries below it.
    pub fn get(&self, idx: usize) -> (r: Option<IdentRef<'_, 'i>>)
        ensures
            r is Some <==> idx < self@.len(),
            r matches Some(node) ==> node.list() == self && node.start() == idx && node.end()
                == self@[idx as int].1,
    {
        proof {
            use_type_invariant(self);
        }
        if idx < self.all_idents.len() {
            Some(IdentRef { ident_list: self, start: idx, end: self.all_idents[idx].1 })
        } else {
            None
        }
    }

    /// The node at an index that lies inside the list, with the entries
    /// below it.
    pub fn get_unchecked(&self, idx: usize) -> (r: IdentRef<'_, 'i>)
        requires
            idx < self@.len(),
        ensures
            r.list() == self,
            r.start() == idx,
            r.end() == self@[idx as int].1,
    {
        proof {
            use_type_invariant(self);
        }
        IdentRef { ident_list: self, start: idx, end: self.all_idents[idx].1 }
    }

    /// The first node, with all the entries after it: the root of the
    /// tree, where the list is the tree of one rule.
    pub fn root(&self) -> (r: Option<IdentRef<'_, 'i>>)
        ensures
            r is Some <==> 0 < self@.len(),
            r matches Some(node) ==> node.list() == self && node.start() == 0 && node.end()
                == self@.len(),
    {
        proof {
            use_type_invariant(self);
        }
        if self.all_idents.len() > 0 {
            Some(IdentRef { ident_list: self, start: 0, end: self.all_idents.len() })
        } else {
            None
        }
    }

    /// The nodes that stand side by side at the top of the list.
    pub fn iter(&self) -> (r: IdentIter<'_, 'i>)
        ensures
            r.list() == self,
            r.remaining() == siblings(self@, 0, self@.len() as int),
            r.all() == r.remaining(),
    {
        proof {
            use_type_invariant(self);
        }
        IdentIter { ident_list: self, start: 0, at: 0, end: self.all_idents.len() }
    }
}

/// A node of a parse tree: an entry of the list, and where the entries
/// below it end.
#[derive(Debug)]
pub struct IdentRef<'l, 'i> {
    ident_list: &'l IdentList<'i>,
    start: usize,
    end: usize,
}

impl<'l, 'i> IdentRef<'l, 'i> {
    #[verifier::type_invariant]
    spec fn well_formed(self) -> bool {
        self.start < self.end <= self.ident_list.all_idents@.len()
    }

    /// The tree that the node belongs to.
    pub closed spec fn list(&self) -> &'l IdentList<'i> {
        self.ident_list
    }

    /// The index of the node's entry.
    pub closed spec fn start(&self) -> usize {
        self.start
    }

    /// The index one past the last entry below the node.
    pub closed spec fn end(&self) -> usize {
        self.end
    }

    /// The label of the node.
    pub fn ident(&self) -> (r: Ident)
        ensures
            self.start() < self.list()@.len(),
            r == self.list()@[self.start() as int].0,
    {
        proof {
            use_type_invariant(self);
        }
        self.ident_list.all_idents[self.start].0
    }

    /// The index of the node's entry. A node is an entry of its list, and
    /// ends inside the list.
    pub fn idx(&self) -> (r: usize)
        ensures
            r == self.start(),
            self.start() < self.end() <= self.list()@.len(),
    {
        proof {
            use_type_invariant(self);
        }
        self.start
    }

    /// The rule that matched.
    pub fn as_rule(&self) -> (r: Rule)
        ensures
            self.start() < self.list()@.len(),
            r == self.list()@[self.start() as int].0.rule,
    {
        self.ident().rule
    }

    /// The bytes that the rule matched.
    pub fn as_bytes(&self) -> (r: &'i [u8])
        ensures
            self.start() < self.list()@.len(),
            r@ == self.list().text().spec_bytes().subrange(
                self.list()@[self.start() as int].0.start as int,
                self.list()@[self.start() as int].0.end as int,
            ),
    {
        proof {
            use_type_invariant(self);
            use_type_invariant(self.ident_list);
        }
        let label = self.ident_list.all_idents[self.start].0;
        slice_subrange(self.ident_list.input.as_bytes(), label.start, label.end)
    }

    /// The text that the rule matched, where it starts and ends on
    /// boundaries of characters of the input.
    pub fn as_str(&self) -> (r: Option<&'i str>)
        ensures
            self.start() < self.list()@.len(),
            r is Some <==> sliceable(
                self.list().text().spec_bytes(),
                self.list()@[self.start() as int].0.start as int,
                self.list()@[self.start() as int].0.end as int,
            ),
            r matches Some(part) ==> part.spec_bytes() == self.list().text().spec_bytes().subrange(
                self.list()@[self.start() as int].0.start as int,
                self.list()@[self.start() as int].0.end as int,
            ),
    {
        proof {
            use_type_invariant(self);
        }
        let label = self.ident_list.all_idents[self.start].0;
        slice_of(self.ident_list.input, label.start, label.end)
    }

    /// The number of entries below the node.
    pub fn children_count(&self) -> (r: usize)
        ensures
            r == self.end() - self.start() - 1,
    {
        proof {
            use_type_invariant(self);
        }
        self.end - self.start - 1
    }

    /// The nodes directly below the node.
    pub fn children(&self) -> (r: IdentIter<'l, 'i>)
        ensures
            r.list() == self.list(),
            r.remaining() == siblings(
                self.list()@,
                self.start() as int + 1,
                self.end() as int,
            ),
            r.all() == r.remaining(),
    {
        proof {
            use_type_invariant(self);
        }
        IdentIter {
            ident_list: self.ident_list,
            start: self.start + 1,
            at: self.start + 1,
            end: self.end,
        }
    }

    /// The nodes directly below the node; the same as `children`.
    pub fn inner(&self) -> (r: IdentIter<'l, 'i>)
        ensures
            r.list() == self.list(),
            r.remaining() == siblings(
                self.list()@,
                self.start() as int + 1,
                self.end() as int,
            ),
            r.all() == r.remaining(),
    {
        self.children()
    }

    /// The nodes directly below the node; the same as `children`.
    pub fn into_inner(self) -> (r: IdentIter<'l, 'i>)
        ensures
            r.list() == self.list(),
            r.remaining() == siblings(
                self.list()@,
                self.start() as int + 1,
                self.end() as int,
            ),
            r.all() == r.remaining(),
    {
        self.children()
    }
}

/// A walk over nodes that stand side by side.
#[derive(Debug)]
pub struct IdentIter<'l, 'i> {
    ident_list: &'l IdentList<'i>,
    start: usize,
    at: usize,
    end: usize,
}

impl<'l, 'i> IdentIter<'l, 'i> {
    #[verifier::type_invariant]
    spec fn well_formed(self) -> bool {
        self.start <= self.at <= self.end <= self.ident_list.all_idents@.len()
    }

    /// The tree that is walked.
    pub closed spec fn list(&self) -> &'l IdentList<'i> {
        self.ident_list
    }

    /// The indices of the nodes that are still to come.
    pub closed spec fn remaining(&self) -> Seq<int> {
        siblings(self.ident_list.all_idents@, self.at as int, self.end as int)
    }

    /// The indices of all the nodes of the walk, those that were handed
    /// out and those that are still to come.
    pub closed spec fn all(&self) -> Seq<int> {
        siblings(self.ident_list.all_idents@, self.start as int, self.end as int)
    }

    /// The text of all the nodes of the walk together, whatever was
    /// handed out of it: borrowed from the input where each node begins
    /// where the one before it ends and the whole lies on boundaries of
    /// characters, and copied node by node where not.
    pub fn join_all(&self) -> (r: Cow<'i, str>)
        ensures
            r@ == joined_all(
                self.list()@,
                self.list().text().spec_bytes(),
                self.all(),
            ),
            r is Borrowed <==> self.all().len() == 0 || joins_in_place(
                self.list()@,
                self.list().text().spec_bytes(),
                self.all(),
            ),
    {
        proof {
            use_type_invariant(self);
            use_type_invariant(self.ident_list);
            reveal_strlit("");
        }
        let input = self.ident_list.input;
        let ghost list = self.ident_list.all_idents@;
        let ghost bytes = input.spec_bytes();
        let ghost nodes = self.all();
        if self.start >= self.end {
            return Cow::Borrowed("");
        }
        let first = self.ident_list.all_idents[self.start].0;
        let mut last_end = first.end;
        let mut chained = true;
        let mut i: usize = self.start;
        let ghost mut seen: Seq<int> = Seq::empty();
        proof {
            assert(seen + siblings(list, i as int, self.end as int) =~= nodes);
        }
        while i < self.end && chained
            invariant
                self.start <= i <= self.end <= list.len(),
                nested(list),
                list == self.ident_list.all_idents@,
                nodes == siblings(list, self.start as int, self.end as int),
                forall|k: int| 0 <= k < seen.len() ==> 0 <= #[trigger] seen[k] < list.len(),
                nodes == seen + siblings(list, i as int, self.end as int),
                first == list[self.start as int].0,
                seen.len() > 0 ==> seen[0] == self.start && last_end == list[seen.last()].0.end,
                seen.len() == 0 ==> i == self.start && last_end == first.end,
                chained ==> adjacent(list, seen),
                !chained ==> !adjacent(list, nodes),
            decreases self.end - i, (if chained { 1nat } else { 0nat }),
        {
            let entry = self.ident_list.all_idents[i];
            proof {
                lemma_siblings_step(list, i as int, self.end as int);
            }
            if i == self.start || entry.0.start == last_end {
                proof {
                    let grown = seen.push(i as int);
                    assert(grown + siblings(list, entry.1 as int, self.end as int) =~= seen + (
                    seq![i as int] + siblings(list, entry.1 as int, self.end as int)));
                    assert forall|k: int| 0 <= k && k + 1 < grown.len() implies list[#[trigger] grown[k
                        + 1]].0.start == list[grown[k]].0.end by {
                        if k + 1 < seen.len() {
                            assert(grown[k + 1] == seen[k + 1]);
                        }
                    }
                    seen = grown;
                }
                last_end = entry.0.end;
                i = if entry.1 > self.end {
                    self.end
                } else {
                    entry.1
                };
                proof {
                    assert(siblings(list, entry.1 as int, self.end as int) =~= siblings(
                        list,
                        i as int,
                        self.end as int,
                    ));
                }
            } else {
                proof {
                    let k = seen.len() - 1;
                    assert(nodes[k] == seen[k]);
                    assert(nodes[k + 1] == i);
                }
                chained = false;
            }
        }
        if chained {
            proof {
                assert(siblings(list, i as int, self.end as int) =~= Seq::<int>::empty());
                assert(seen + Seq::<int>::empty() =~= seen);
            }
            match crate::text::slice_of(input, first.start, last_end) {
                Some(text) => {
                    proof {
                        vstd::utf8::encode_utf8_decode_utf8(text@);
                    }
                    return Cow::Borrowed(text);
                },
                None => {},
            }
        }
        let mut result = String::new();
        let mut i: usize = self.start;
        let ghost mut done: Seq<int> = Seq::empty();
        proof {
            assert(done + siblings(list, i as int, self.end as int) =~= nodes);
        }
        while i < self.end
            invariant
                self.start <= i <= self.end <= list.len(),
                nested(list),
                list == self.ident_list.all_idents@,
                input == self.ident_list.input,
                bytes == input.spec_bytes(),
                nodes == done + siblings(list, i as int, self.end as int),
                result@ == texts_joined(list, bytes, done),
            decreases self.end - i,
        {
            let entry = self.ident_list.all_idents[i];
            proof {
                lemma_siblings_step(list, i as int, self.end as int);
                let grown = done.push(i as int);
                assert(grown.drop_last() =~= done);
                assert(grown + siblings(list, entry.1 as int, self.end as int) =~= done + (
                seq![i as int] + siblings(list, entry.1 as int, self.end as int)));
            }
            match crate::text::slice_of(input, entry.0.start, entry.0.end) {
                Some(text) => {
                    proof {
                        vstd::utf8::encode_utf8_decode_utf8(text@);
                    }
                    result.append(text);
                },
                None => {
                    assert(result@ + Seq::<char>::empty() =~= result@);
                },
            }
            proof {
                done = done.push(i as int);
            }
            i = if entry.1 > self.end {
                self.end
            } else {
                entry.1
            };
            proof {
                assert(siblings(list, entry.1 as int, self.end as int) =~= siblings(
                    list,
                    i as int,
                    self.end as int,
                ));
            }
        }
        proof {
            assert(siblings(list, i as int, self.end as int) =~= Seq::<int>::empty());
            assert(done + Seq::<int>::empty() =~= done);
        }
        Cow::Owned(result)
    }

    /// The next node, if one is left.
    pub fn next(&mut self) -> (r: Option<IdentRef<'l, 'i>>)
        ensures
            final(self).list() == old(self).list(),
            final(self).all() == old(self).all(),
            match r {
                Some(node) => old(self).remaining().len() > 0 && node.list() == old(self).list()
                    && node.start() == old(self).remaining()[0] && node.end() == old(
                    self,
                ).list()@[node.start() as int].1 && final(self).remaining() == old(
                    self,
                ).remaining().drop_first(),
                None => old(self).remaining().len() == 0 && final(self).remaining() == old(
                    self,
                ).remaining(),
            },
    {
        proof {
            use_type_invariant(&*self);
            use_type_invariant(self.ident_list);
        }
        if self.at >= self.end {
            return None;
        }
        let start = self.at;
        let end = self.ident_list.all_idents[start].1;
        if end > self.end {
            // the walk ends where an entry reaches past it
            let ghost list = self.ident_list.all_idents@;
            self.at = self.end;
            let node = IdentRef { ident_list: self.ident_list, start, end };
            proof {
                assert(siblings(list, start as int, old(self).end as int).drop_first() =~= siblings(
                    list,
                    end as int,
                    old(self).end as int,
                ));
            }
            return Some(node);
        }
        self.at = end;
        let node = IdentRef { ident_list: self.ident_list, start, end };
        proof {
            let list = self.ident_list.all_idents@;
            assert(siblings(list, start as int, self.end as int).drop_first() =~= siblings(
                list,
                end as int,
                self.end as int,
            ));
        }
        Some(node)
    }
}

} // verus!
