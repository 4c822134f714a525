use faster_pest::ident::IdentList;
use faster_pest::pattern_outer::{Ident, Rule};

fn label(rule: usize, start: usize, end: usize, below: usize) -> (Ident, usize) {
    (Ident { rule: Rule(rule), start, end }, below)
}

/// file(0..9) [ record(0..4) [ field(0..1), field(2..4) ], record(5..9) [ field(5..9) ] ]
fn sample() -> Vec<(Ident, usize)> {
    vec![
        label(0, 0, 9, 6),
        label(1, 0, 4, 4),
        label(2, 0, 1, 3),
        label(2, 2, 4, 4),
        label(1, 5, 9, 6),
        label(2, 5, 9, 6),
    ]
}

const INPUT: &str = "1,23\n4567";

fn walk(list: &IdentList, from: Option<usize>, visited: &mut Vec<usize>) {
    let mut children = match from {
        Some(idx) => list.get(idx).expect("a node").children(),
        None => list.iter(),
    };
    while let Some(child) = children.next() {
        visited.push(child.idx());
        walk(list, Some(child.idx()), visited);
    }
}

#[test]
fn a_nested_list_is_a_tree() {
    let list = IdentList::from_idents(sample(), INPUT).expect("nested");
    assert_eq!(list.len(), 6);
    assert_eq!(list.input(), INPUT);
    assert_eq!(list.entry(3), label(2, 2, 4, 4));
    let root = list.root().expect("a root");
    assert_eq!(root.idx(), 0);
    assert_eq!(root.as_rule(), Rule(0));
    assert_eq!(root.ident(), Ident { rule: Rule(0), start: 0, end: 9 });
    assert_eq!(root.as_str(), Some(INPUT));
    assert_eq!(root.as_bytes(), INPUT.as_bytes());
    assert_eq!(root.children_count(), 5);
}

#[test]
fn children_are_the_nodes_directly_below() {
    let list = IdentList::from_idents(sample(), INPUT).expect("nested");
    let root = list.root().expect("a root");
    let mut records = root.children();
    let first = records.next().expect("first record");
    assert_eq!((first.idx(), first.as_rule(), first.as_str()), (1, Rule(1), Some("1,23")));
    assert_eq!(first.children_count(), 2);
    let second = records.next().expect("second record");
    assert_eq!((second.idx(), second.as_rule(), second.as_str()), (4, Rule(1), Some("4567")));
    assert_eq!(second.children_count(), 1);
    assert!(records.next().is_none());
    assert!(records.next().is_none());
    let mut fields = first.children();
    assert_eq!(fields.next().expect("field").as_str(), Some("1"));
    assert_eq!(fields.next().expect("field").as_str(), Some("23"));
    assert!(fields.next().is_none());
    let leaf = list.get(5).expect("a node");
    assert_eq!(list.get_unchecked(5).idx(), 5);
    assert_eq!(first.inner().next().expect("field").idx(), 2);
    assert_eq!(list.get_unchecked(1).into_inner().next().expect("field").idx(), 2);
    assert_eq!(leaf.children_count(), 0);
    assert!(leaf.children().next().is_none());
    assert!(list.get(6).is_none());
}

#[test]
fn children_can_be_walked_again() {
    let list = IdentList::from_idents(sample(), INPUT).expect("nested");
    let root = list.root().expect("a root");
    let mut once = vec![];
    let mut children = root.children();
    while let Some(child) = children.next() {
        once.push(child.idx());
    }
    let mut again = vec![];
    let mut children = root.children();
    while let Some(child) = children.next() {
        again.push(child.idx());
    }
    assert_eq!(once, vec![1, 4]);
    assert_eq!(once, again);
}

#[test]
fn the_walk_from_the_top_visits_every_entry_in_order() {
    let list = IdentList::from_idents(sample(), INPUT).expect("nested");
    let mut visited = vec![];
    walk(&list, None, &mut visited);
    assert_eq!(visited, vec![0, 1, 2, 3, 4, 5]);
}

#[test]
fn a_list_of_several_trees_has_several_tops() {
    let forest = vec![label(0, 0, 1, 2), label(1, 0, 1, 2), label(0, 2, 4, 3)];
    let list = IdentList::from_idents(forest, INPUT).expect("nested");
    let mut tops = list.iter();
    assert_eq!(tops.next().expect("first").idx(), 0);
    assert_eq!(tops.next().expect("second").idx(), 2);
    assert!(tops.next().is_none());
    let mut visited = vec![];
    walk(&list, None, &mut visited);
    assert_eq!(visited, vec![0, 1, 2]);
}

#[test]
fn an_empty_list_has_no_root() {
    let list = IdentList::from_idents(vec![], "").expect("nested");
    assert_eq!(list.len(), 0);
    assert!(list.root().is_none());
    assert!(list.iter().next().is_none());
}

#[test]
fn lists_that_are_not_nested_are_refused() {
    // an entry that ends at itself
    assert!(IdentList::from_idents(vec![label(0, 0, 1, 0)], INPUT).is_none());
    // an entry that ends past the list
    assert!(IdentList::from_idents(vec![label(0, 0, 1, 2)], INPUT).is_none());
    // an entry that reaches past the entry that it stands below
    let crossing = vec![label(0, 0, 4, 2), label(1, 0, 1, 3), label(1, 1, 2, 3)];
    assert!(IdentList::from_idents(crossing, INPUT).is_none());
    // a label that ends before it starts
    assert!(IdentList::from_idents(vec![label(0, 2, 1, 1)], INPUT).is_none());
    // a label that ends past the input
    assert!(IdentList::from_idents(vec![label(0, 0, 10, 1)], INPUT).is_none());
}

#[test]
fn text_inside_a_character_is_no_text() {
    let list = IdentList::from_idents(vec![label(0, 0, 1, 1)], "é").expect("nested");
    let root = list.root().expect("a root");
    assert_eq!(root.as_str(), None);
    assert_eq!(root.as_bytes(), &"é".as_bytes()[0..1]);
    assert_eq!(root.ident().as_str("é"), None);
    assert_eq!(Ident { rule: Rule(0), start: 0, end: 2 }.as_str("é"), Some("é"));
    assert_eq!(Ident { rule: Rule(3), start: 0, end: 2 }.as_rule(), Rule(3));
}
