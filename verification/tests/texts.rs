use faster_pest::multi_replace::multi_replace;
use faster_pest::text::{
    chars_of, concat2, concat3, decimal, padded, replace, slice_of, str_eq, string_of,
};

#[test]
fn numbers_in_decimal() {
    assert_eq!(decimal(0), "0");
    assert_eq!(decimal(7), "7");
    assert_eq!(decimal(10), "10");
    assert_eq!(decimal(1234567890), "1234567890");
    assert_eq!(decimal(usize::MAX), usize::MAX.to_string());
}

#[test]
fn numbers_with_zeros_in_front() {
    assert_eq!(padded(0, 4), "0000");
    assert_eq!(padded(42, 4), "0042");
    assert_eq!(padded(9999, 4), "9999");
    assert_eq!(padded(12345, 4), "12345");
    assert_eq!(padded(5, 0), "5");
}

#[test]
fn strings_and_their_characters() {
    assert_eq!(chars_of("aé"), vec!['a', 'é']);
    assert_eq!(string_of(&vec!['a', 'é']), "aé");
    assert!(str_eq("ab", "ab") && !str_eq("ab", "abc"));
    assert_eq!(concat2("ab", "cd"), "abcd");
    assert_eq!(concat3("ab", "", "cd"), "abcd");
}

#[test]
fn replace_replaces_every_occurrence() {
    assert_eq!(replace("a-b-c", "-", "+"), "a+b+c");
    assert_eq!(replace("aaa", "aa", "b"), "ba");
    assert_eq!(replace("abc", "x", "y"), "abc");
    assert_eq!(replace("abc", "abc", ""), "");
    assert_eq!(replace("ab", "abc", "x"), "ab");
    assert_eq!(replace("fn expr_id() { expr_id }", "expr_id", "anon_0001"), "fn anon_0001() { anon_0001 }");
    assert_eq!(replace("abab", "ab", "abab"), "abababab");
    assert_eq!(replace("", "a", "b"), "");
}

#[test]
fn replace_with_an_empty_pattern_changes_nothing() {
    assert_eq!(replace("abc", "", "x"), "abc");
}

#[test]
fn slices_end_on_character_boundaries() {
    assert_eq!(slice_of("héllo", 0, 3), Some("hé"));
    assert_eq!(slice_of("héllo", 1, 3), Some("é"));
    assert_eq!(slice_of("héllo", 2, 3), None);
    assert_eq!(slice_of("héllo", 0, 2), None);
    assert_eq!(slice_of("héllo", 3, 3), Some(""));
    assert_eq!(slice_of("héllo", 6, 6), Some(""));
    assert_eq!(slice_of("héllo", 3, 2), None);
    assert_eq!(slice_of("héllo", 0, 7), None);
}

fn values(pairs: &[(&'static str, &[&str])]) -> Vec<(&'static str, Vec<String>)> {
    pairs
        .iter()
        .map(|(pattern, items)| (*pattern, items.iter().map(|s| s.to_string()).collect()))
        .collect()
}

#[test]
fn lines_that_name_an_item_are_written_once_for_every_item() {
    let text = "head\n  call ITEM(FLAG);\ntail\n".to_string();
    let filled = multi_replace(text, values(&[("ITEM", &["a", "b", "c"]), ("FLAG", &["x", "", "z"])]));
    assert_eq!(filled, "head\n  call a(x);\n  call b();\n  call c(z);\ntail\n");
}

#[test]
fn lines_without_a_pattern_stay() {
    let text = "one\ntwo".to_string();
    assert_eq!(multi_replace(text, values(&[("ITEM", &["a", "b"])])), "one\ntwo");
}

#[test]
fn lines_are_left_out_where_there_is_no_item() {
    let text = "head\n  ITEM,\ntail".to_string();
    assert_eq!(multi_replace(text, values(&[("ITEM", &[]), ("FLAG", &[])])), "head\ntail");
    let text = "head\nITEM".to_string();
    assert_eq!(multi_replace(text, values(&[("ITEM", &[])])), "head\n");
}

#[test]
fn a_line_with_only_the_second_pattern_is_written_for_every_item() {
    let text = "FLAG\n\nITEM FLAG".to_string();
    let filled = multi_replace(text, values(&[("ITEM", &["a", "b"]), ("FLAG", &["x", "y"])]));
    assert_eq!(filled, "x\ny\n\na x\nb y");
}

#[test]
fn patterns_are_replaced_in_their_order() {
    let text = "AB".to_string();
    let filled = multi_replace(text, values(&[("A", &["B"]), ("B", &["c"])]));
    assert_eq!(filled, "cc");
}
