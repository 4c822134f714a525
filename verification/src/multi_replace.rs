//! Fills the lines of a template that stand for a list: such a line is
//! written once for every item of the list.
use vstd::prelude::*;
use vstd::string::*;
use crate::error::texts_of;
use crate::text::{
    chars_of,
    contains_text,
    extend_chars,
    first_line_len,
    joined,
    lemma_first_line,
    occurs_in,
    replace_chars,
    replaced,
    string_of,
};

verus! {

/// The texts of a list of lists of characters.
pub open spec fn rows(v: Seq<Vec<char>>) -> Seq<Seq<char>> {
    Seq::new(v.len(), |i: int| v[i]@)
}

/// The texts of a list of lists of lists of characters.
pub open spec fn tables(v: Seq<Vec<Vec<char>>>) -> Seq<Seq<Seq<char>>> {
    Seq::new(v.len(), |j: int| rows(v[j]@))
}

/// One of the patterns occurs in the line.
pub open spec fn line_hit(line: Seq<char>, patterns: Seq<Seq<char>>) -> bool {
    exists|j: int| 0 <= j < patterns.len() && contains_text(line, #[trigger] patterns[j])
}

/// The line with the first `upto` patterns replaced, one after the
/// other, each by its value for the item `i`.
pub open spec fn substituted(
    line: Seq<char>,
    patterns: Seq<Seq<char>>,
    values: Seq<Seq<Seq<char>>>,
    i: int,
    upto: nat,
) -> Seq<char>
    decreases upto,
{
    if upto == 0 {
        line
    } else {
        replaced(
            substituted(line, patterns, values, i, (upto - 1) as nat),
            patterns[upto - 1],
            values[upto - 1][i],
        )
    }
}

/// The line, written once for every item.
pub open spec fn copies(
    line: Seq<char>,
    patterns: Seq<Seq<char>>,
    values: Seq<Seq<Seq<char>>>,
    count: nat,
) -> Seq<Seq<char>> {
    Seq::new(count, |i: int| substituted(line, patterns, values, i, patterns.len()))
}

/// What a line becomes: a line in which no pattern occurs stays; any
/// other line is written once for every item, and is left out where
/// there is no item.
pub open spec fn expanded(
    line: Seq<char>,
    patterns: Seq<Seq<char>>,
    values: Seq<Seq<Seq<char>>>,
    count: nat,
) -> Option<Seq<char>> {
    if !line_hit(line, patterns) {
        Some(line)
    } else if count == 0 {
        None
    } else {
        Some(joined(copies(line, patterns, values, count), seq!['\n']))
    }
}

/// The text with every line expanded. A line that is left out takes its
/// line feed with it.
pub open spec fn multi_replaced(
    text: Seq<char>,
    patterns: Seq<Seq<char>>,
    values: Seq<Seq<Seq<char>>>,
    count: nat,
) -> Seq<char>
    decreases text.len(),
{
    let n = first_line_len(text);
    let line = text.take(n as int);
    if n >= text.len() {
        match expanded(line, patterns, values, count) {
            Some(l) => l,
            None => Seq::empty(),
        }
    } else {
        let rest = multi_replaced(text.skip(n as int + 1), patterns, values, count);
        match expanded(line, patterns, values, count) {
            Some(l) => l + seq!['\n'] + rest,
            None => rest,
        }
    }
}

/// The place where the line that starts at `from` ends.
pub fn line_end(text: &Vec<char>, from: usize) -> (r: usize)
    requires
        from <= text.len(),
    ensures
        r == from + first_line_len(text@.skip(from as int)),
        from <= r <= text.len(),
{
    let mut e: usize = from;
    proof {
        lemma_first_line(text@.skip(from as int));
    }
    while e < text.len() && text[e] != '\n'
        invariant
            from <= e <= text.len(),
            from + first_line_len(text@.skip(from as int)) == e + first_line_len(
                text@.skip(e as int),
            ),
        decreases text.len() - e,
    {
        proof {
            assert(text@.skip(e as int)[0] == text@[e as int]);
            assert(text@.skip(e as int).skip(1) =~= text@.skip(e + 1));
        }
        e += 1;
    }
    proof {
        if e < text.len() {
            assert(text@.skip(e as int)[0] == text@[e as int]);
        }
    }
    e
}

/// Whether one of the patterns occurs in the part of the text from `lo`
/// up to `hi`.
pub fn hit(text: &Vec<char>, lo: usize, hi: usize, patterns: &Vec<Vec<char>>) -> (r: bool)
    requires
        lo <= hi <= text.len(),
    ensures
        r == line_hit(text@.subrange(lo as int, hi as int), rows(patterns@)),
{
    let mut j: usize = 0;
    while j < patterns.len()
        invariant
            j <= patterns.len(),
            lo <= hi <= text.len(),
            forall|k: int|
                0 <= k < j ==> !contains_text(
                    text@.subrange(lo as int, hi as int),
                    #[trigger] rows(patterns@)[k],
                ),
        decreases patterns.len() - j,
    {
        assert(rows(patterns@)[j as int] == patterns@[j as int]@);
        if occurs_in(text, lo, hi, &patterns[j]) {
            return true;
        }
        j += 1;
    }
    false
}

/// The line with every pattern replaced by its value for the item `i`.
pub fn substitute(
    line: &Vec<char>,
    patterns: &Vec<Vec<char>>,
    values: &Vec<Vec<Vec<char>>>,
    i: usize,
) -> (r: Vec<char>)
    requires
        values.len() == patterns.len(),
        forall|j: int| 0 <= j < values.len() ==> i < (#[trigger] values@[j]).len(),
    ensures
        r@ == substituted(line@, rows(patterns@), tables(values@), i as int, patterns@.len()),
{
    let mut current: Vec<char> = Vec::new();
    extend_chars(&mut current, line);
    assert(current@ =~= line@);
    let mut j: usize = 0;
    while j < patterns.len()
        invariant
            j <= patterns.len(),
            values.len() == patterns.len(),
            forall|k: int| 0 <= k < values.len() ==> i < (#[trigger] values@[k]).len(),
            current@ == substituted(
                line@,
                rows(patterns@),
                tables(values@),
                i as int,
                j as nat,
            ),
        decreases patterns.len() - j,
    {
        assert(rows(patterns@)[j as int] == patterns@[j as int]@);
        assert(i < values@[j as int].len());
        assert(tables(values@)[j as int][i as int] == values@[j as int]@[i as int]@);
        current = replace_chars(&current, &patterns[j], &values[j][i]);
        j += 1;
    }
    current
}

/// Appends what the line from `lo` up to `hi` becomes; says whether the
/// line stays.
pub fn expand(
    text: &Vec<char>,
    lo: usize,
    hi: usize,
    patterns: &Vec<Vec<char>>,
    values: &Vec<Vec<Vec<char>>>,
    count: usize,
    out: &mut Vec<char>,
) -> (kept: bool)
    requires
        lo <= hi <= text.len(),
        values.len() == patterns.len(),
        forall|j: int| 0 <= j < values.len() ==> count == (#[trigger] values@[j]).len(),
    ensures
        match expanded(
            text@.subrange(lo as int, hi as int),
            rows(patterns@),
            tables(values@),
            count as nat,
        ) {
            Some(l) => kept && final(out)@ == old(out)@ + l,
            None => !kept && final(out)@ == old(out)@,
        },
{
    let mut line: Vec<char> = Vec::new();
    let mut k: usize = lo;
    while k < hi
        invariant
            lo <= k <= hi <= text.len(),
            line@ == text@.subrange(lo as int, k as int),
        decreases hi - k,
    {
        line.push(text[k]);
        k += 1;
        assert(line@ =~= text@.subrange(lo as int, k as int));
    }
    if !hit(text, lo, hi, patterns) {
        extend_chars(out, &line);
        return true;
    }
    if count == 0 {
        return false;
    }
    let ghost all = copies(line@, rows(patterns@), tables(values@), count as nat);
    let mut i: usize = 0;
    assert(out@ + joined(all.take(0), seq!['\n']) =~= out@);
    while i < count
        invariant
            i <= count,
            values.len() == patterns.len(),
            forall|j: int| 0 <= j < values.len() ==> count == (#[trigger] values@[j]).len(),
            all == copies(line@, rows(patterns@), tables(values@), count as nat),
            out@ == old(out)@ + joined(all.take(i as int), seq!['\n']),
        decreases count - i,
    {
        let copy = substitute(&line, patterns, values, i);
        let ghost before = out@;
        if i > 0 {
            out.push('\n');
        }
        extend_chars(out, &copy);
        proof {
            let now = all.take(i + 1);
            assert(now.drop_last() =~= all.take(i as int));
            assert(now.last() == copy@);
            if i == 0 {
                assert(joined(now, seq!['\n']) == copy@);
                assert(joined(all.take(0), seq!['\n']) =~= Seq::<char>::empty());
                assert(out@ =~= old(out)@ + joined(now, seq!['\n']));
            } else {
                assert(before.push('\n') =~= before + seq!['\n']);
                assert(out@ =~= old(out)@ + (joined(all.take(i as int), seq!['\n']) + seq!['\n']
                    + copy@));
            }
        }
        i += 1;
    }
    assert(all.take(count as int) =~= all);
    true
}

/// The text with every line expanded, on lists of characters.
pub fn multi_replace_chars(
    text: &Vec<char>,
    patterns: &Vec<Vec<char>>,
    values: &Vec<Vec<Vec<char>>>,
    count: usize,
) -> (out: Vec<char>)
    requires
        values.len() == patterns.len(),
        forall|j: int| 0 <= j < values.len() ==> count == (#[trigger] values@[j]).len(),
    ensures
        out@ == multi_replaced(text@, rows(patterns@), tables(values@), count as nat),
{
    let mut out: Vec<char> = Vec::new();
    let mut i: usize = 0;
    assert(text@.skip(0) =~= text@);
    assert(out@ + multi_replaced(text@, rows(patterns@), tables(values@), count as nat)
        =~= multi_replaced(text@, rows(patterns@), tables(values@), count as nat));
    loop
        invariant
            i <= text.len(),
            values.len() == patterns.len(),
            forall|j: int| 0 <= j < values.len() ==> count == (#[trigger] values@[j]).len(),
            multi_replaced(text@, rows(patterns@), tables(values@), count as nat) == out@
                + multi_replaced(
                text@.skip(i as int),
                rows(patterns@),
                tables(values@),
                count as nat,
            ),
        decreases text.len() - i,
    {
        let e = line_end(text, i);
        let ghost rest = text@.skip(i as int);
        let ghost before = out@;
        proof {
            assert(rest.take(e - i) =~= text@.subrange(i as int, e as int));
        }
        let kept = expand(text, i, e, patterns, values, count, &mut out);
        if e >= text.len() {
            proof {
                assert(before + Seq::<char>::empty() =~= before);
            }
            return out;
        }
        proof {
            assert(rest.skip(e - i + 1) =~= text@.skip(e + 1));
        }
        if kept {
            let ghost mid = out@;
            out.push('\n');
            proof {
                let tail = multi_replaced(
                    text@.skip(e + 1),
                    rows(patterns@),
                    tables(values@),
                    count as nat,
                );
                let l = expanded(
                    text@.subrange(i as int, e as int),
                    rows(patterns@),
                    tables(values@),
                    count as nat,
                )->0;
                assert(before + (l + seq!['\n'] + tail) =~= out@ + tail);
            }
        }
        i = e + 1;
    }
}

/// The characters of each string of a list.
pub fn chars_of_all(items: &Vec<String>) -> (r: Vec<Vec<char>>)
    ensures
        rows(r@) == texts_of(items@),
{
    let mut r: Vec<Vec<char>> = Vec::new();
    let mut i: usize = 0;
    while i < items.len()
        invariant
            i <= items.len(),
            r@.len() == i,
            forall|j: int| 0 <= j < i ==> (#[trigger] r@[j])@ == items@[j]@,
        decreases items.len() - i,
    {
        r.push(chars_of(items[i].as_str()));
        i += 1;
    }
    assert(rows(r@) =~= texts_of(items@));
    r
}

/// The patterns of a list of patterns with their values.
pub open spec fn patterns_of(values: Seq<(&'static str, Vec<String>)>) -> Seq<Seq<char>> {
    Seq::new(values.len(), |j: int| values[j].0@)
}

/// The values of a list of patterns with their values.
pub open spec fn values_of(values: Seq<(&'static str, Vec<String>)>) -> Seq<Seq<Seq<char>>> {
    Seq::new(values.len(), |j: int| texts_of(values[j].1@))
}

/// Fills the lines of a template that stand for a list.
///
/// Each pattern comes with one value for every item of the list. A line
/// in which a pattern occurs is written once for every item, with every
/// pattern replaced by its value for that item, in the order of the
/// patterns. Where the list has no item such a line is left out, with its
/// line feed. Every other line stays as it is.
///
/// Lines end at line feeds only: a carriage return before a line feed
/// belongs to the line, and is written with every copy of it. Patterns
/// may contain each other; as they are replaced one after the other, in
/// the order in which they are given, a pattern that is part of another
/// should be given after it.
pub fn multi_replace(text: String, values: Vec<(&'static str, Vec<String>)>) -> (r: String)
    requires
        values.len() > 0,
        forall|j: int| 0 <= j < values.len() ==> (#[trigger] values@[j]).1.len() == values@[0].1.len(),
    ensures
        r@ == multi_replaced(
            text@,
            patterns_of(values@),
            values_of(values@),
            values@[0].1.len() as nat,
        ),
{
    let count = values[0].1.len();
    let mut patterns: Vec<Vec<char>> = Vec::new();
    let mut tabled: Vec<Vec<Vec<char>>> = Vec::new();
    let mut j: usize = 0;
    while j < values.len()
        invariant
            j <= values.len(),
            patterns@.len() == j,
            tabled@.len() == j,
            count == values@[0].1.len(),
            forall|k: int|
                0 <= k < values.len() ==> (#[trigger] values@[k]).1.len() == values@[0].1.len(),
            forall|k: int| 0 <= k < j ==> (#[trigger] patterns@[k])@ == values@[k].0@,
            forall|k: int| 0 <= k < j ==> rows((#[trigger] tabled@[k])@) == texts_of(values@[k].1@),
        decreases values.len() - j,
    {
        patterns.push(chars_of(values[j].0));
        tabled.push(chars_of_all(&values[j].1));
        j += 1;
    }
    proof {
        assert(rows(patterns@) =~= patterns_of(values@));
        assert(tables(tabled@) =~= values_of(values@));
        assert forall|k: int| 0 <= k < tabled.len() implies count == (#[trigger] tabled@[k]).len() by {
            assert(rows(tabled@[k]@).len() == texts_of(values@[k].1@).len());
        }
    }
    let out = multi_replace_chars(&chars_of(text.as_str()), &patterns, &tabled, count);
    string_of(&out)
}

} // verus!
