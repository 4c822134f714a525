use std::borrow::Cow;

use faster_pest::error::ErrorKind;
use faster_pest::ident::IdentList;
use faster_pest::pairs::Pairs2;
use faster_pest::pattern_outer::{Ident, Rule};
use faster_pest::rules::compile_rules;

fn label(rule: usize, start: usize, end: usize, below: usize) -> (Ident, usize) {
    (Ident { rule: Rule(rule), start, end }, below)
}

const INPUT: &str = "1,23\n4567";

fn sample() -> Vec<(Ident, usize)> {
    vec![
        label(0, 0, 9, 6),
        label(1, 0, 4, 4),
        label(2, 0, 1, 3),
        label(2, 2, 4, 4),
        label(1, 5, 9, 6),
        label(2, 5, 9, 6),
    ]
}

#[test]
fn pairs_walk_the_tree() {
    let mut pairs = Pairs2::from_idents(sample(), INPUT).expect("nested");
    let file = pairs.next().expect("the file");
    assert!(pairs.next().is_none());
    assert_eq!(file.as_rule(), Rule(0));
    assert_eq!(file.as_str(), Some(INPUT));
    assert_eq!(file.ident(), Ident { rule: Rule(0), start: 0, end: 9 });
    let mut records = file.inner();
    let first = records.next().expect("first record");
    assert_eq!(first.as_str(), Some("1,23"));
    let mut fields = first.into_inner();
    assert_eq!(fields.next().expect("field").as_str(), Some("1"));
    assert_eq!(fields.next().expect("field").as_str(), Some("23"));
    assert!(fields.next().is_none());
    let second = records.next().expect("second record");
    assert_eq!(second.as_rule(), Rule(1));
    assert!(records.next().is_none());
    let mut again = file.into_inner();
    assert_eq!(again.next().expect("first record").as_str(), Some("1,23"));
}

#[test]
fn pairs_hand_out_spans() {
    let mut pairs = Pairs2::from_idents(sample(), INPUT).expect("nested");
    let file = pairs.next().expect("the file");
    let record = file.inner().next().expect("a record");
    let span = record.as_span().expect("a span");
    assert_eq!((span.start(), span.end(), span.as_str()), (0, 4, "1,23"));
    let span = record.into_span().expect("a span");
    assert_eq!(span.as_str(), "1,23");
}

#[test]
fn a_label_inside_a_character_has_no_span() {
    let mut pairs = Pairs2::from_idents(vec![label(0, 1, 2, 1)], "é").expect("nested");
    let pair = pairs.next().expect("a pair");
    assert!(pair.as_span().is_none());
    assert!(pair.as_str().is_none());
    let mut pairs = Pairs2::from_idents(vec![label(0, 0, 2, 1)], "é").expect("nested");
    assert!(pairs.next().expect("a pair").as_span().is_some());
}

#[test]
fn pairs_of_a_list_that_is_not_nested() {
    assert!(Pairs2::from_idents(vec![label(0, 0, 1, 5)], INPUT).is_none());
}

#[test]
fn grammar_parses_into_pairs() {
    let text = "WHITESPACE = _{ \" \" }\nword = { ASCII_ALPHA+ }\nline = { word+ ~ EOI }";
    let rules = pest_meta::parse_and_optimize(text).expect("a grammar").1;
    let g = compile_rules(&rules).expect("supported");
    let line = g.find("line").expect("the rule");
    let word = g.find("word").expect("the rule");
    let mut pairs = g.parse(Rule(line), "ab cd").expect("matches");
    let top = pairs.next().expect("the line");
    assert_eq!((top.as_rule(), top.as_str()), (Rule(line), Some("ab cd")));
    let words: Vec<_> = {
        let mut inner = top.inner();
        let mut words = vec![];
        while let Some(pair) = inner.next() {
            words.push((pair.as_rule(), pair.as_str()));
        }
        words
    };
    assert_eq!(words, vec![(Rule(word), Some("ab")), (Rule(word), Some("cd"))]);
    let e = g.parse(Rule(line), "ab 1").err().expect("does not match");
    assert!(matches!(e.kind(), ErrorKind::Expected(v) if v == "EOI"));
    assert_eq!(e.remaining_bytes(), 1);
    assert_eq!(e.note(), &Some("following repetition word* which ended".to_string()));
}

#[test]
fn nodes_side_by_side_are_joined_in_place() {
    let list = IdentList::from_idents(
        vec![label(0, 0, 4, 3), label(1, 0, 1, 2), label(1, 1, 4, 3)],
        INPUT,
    )
    .expect("nested");
    let joined = list.root().expect("a root").children().join_all();
    assert!(matches!(joined, Cow::Borrowed("1,23")));
}

#[test]
fn nodes_with_gaps_are_joined_in_a_copy() {
    let list = IdentList::from_idents(sample(), INPUT).expect("nested");
    let records = list.root().expect("a root").children();
    let joined = records.join_all();
    assert!(matches!(joined, Cow::Owned(_)));
    assert_eq!(joined, "1,234567");
    let fields = list.get(1).expect("a record").children().join_all();
    assert!(matches!(fields, Cow::Owned(_)));
    assert_eq!(fields, "123");
}

#[test]
fn no_nodes_join_to_nothing() {
    let list = IdentList::from_idents(sample(), INPUT).expect("nested");
    let joined = list.get(2).expect("a field").children().join_all();
    assert!(matches!(joined, Cow::Borrowed("")));
}

#[test]
fn a_walk_joins_all_its_nodes_whatever_was_taken_from_it() {
    let list = IdentList::from_idents(sample(), INPUT).expect("nested");
    let mut records = list.root().expect("a root").children();
    records.next();
    assert_eq!(records.join_all(), "1,234567");
    records.next();
    assert_eq!(records.join_all(), "1,234567");
    assert!(records.next().is_none());
    assert_eq!(records.join_all(), "1,234567");
    let pair = IdentList::from_idents(
        vec![label(0, 0, 2, 3), label(1, 0, 1, 2), label(1, 1, 2, 3)],
        "xy",
    )
    .expect("nested");
    let mut children = pair.root().expect("a root").children();
    children.next();
    assert!(matches!(children.join_all(), Cow::Borrowed("xy")));
}
