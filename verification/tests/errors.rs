use faster_pest::error::{locate, Error, ErrorKind};

#[test]
fn new_error_counts_the_bytes_that_are_left() {
    let e = Error::new(ErrorKind::expected("x"), "héllo", "root");
    assert_eq!(e.remaining_bytes(), 6);
    let e = Error::at(ErrorKind::expected("x"), 4, "root");
    assert_eq!(e.remaining_bytes(), 4);
    assert!(matches!(e.kind(), ErrorKind::Expected(v) if v == "x"));
}

#[test]
fn trace_grows_at_its_end() {
    let e = Error::at(ErrorKind::expected("x"), 0, "inner").with_trace("middle").with_trace("outer");
    assert_eq!(
        e.trace(),
        &vec!["inner".to_string(), "middle".to_string(), "outer".to_string()]
    );
}

#[test]
fn the_first_note_wins() {
    let e = Error::at(ErrorKind::expected("x"), 0, "root");
    assert_eq!(e.note(), &None);
    let e = e.with_note("first");
    assert_eq!(e.note(), &Some("first".to_string()));
    let e = e.with_note("second").with_trace("frame");
    assert_eq!(e.note(), &Some("first".to_string()));
    assert!(matches!(e.kind(), ErrorKind::Expected(v) if v == "x"));
}

#[test]
fn causes_describe_themselves() {
    assert_eq!(ErrorKind::expected_value("ab").describe(), "Expected value: ab");
    assert_eq!(ErrorKind::expected("digit").describe(), "Expected: digit");
    assert_eq!(
        ErrorKind::neg_pred_failed("\"a\"").describe(),
        "Negated predicate failed: \"a\""
    );
    let errors = vec![
        Error::at(ErrorKind::expected("a"), 0, "x"),
        Error::at(ErrorKind::expected("b"), 0, "y"),
    ];
    assert_eq!(ErrorKind::all(errors).describe(), "All 2 accepted patterns fail to match");
    assert_eq!(ErrorKind::all(vec![]).describe(), "All 0 accepted patterns fail to match");
}

#[test]
fn failure_is_located_by_line_and_column() {
    let input = "ab\ncdé f\ngh";
    let at = locate(input.as_bytes(), 4);
    assert_eq!(at.position, 8);
    assert_eq!(at.line, 2);
    assert_eq!(at.column, 6);
    assert_eq!(at.line_start, 3);
    assert_eq!(at.line_end, 9);
    assert_eq!(at.characters_before, 4);
    let at = locate(input.as_bytes(), input.len());
    assert_eq!((at.position, at.line, at.column, at.line_start, at.line_end), (0, 1, 1, 0, 2));
    let at = locate(input.as_bytes(), 0);
    assert_eq!((at.position, at.line, at.column, at.line_start, at.line_end), (12, 3, 3, 10, 12));
    let at = locate(input.as_bytes(), 10);
    assert_eq!((at.position, at.line, at.column, at.line_start, at.line_end), (2, 1, 3, 0, 2));
    let at = locate(b"", 0);
    assert_eq!((at.position, at.line, at.column, at.line_start, at.line_end), (0, 1, 1, 0, 0));
}

#[test]
fn report_shows_the_line_and_a_caret() {
    let input = "ab\ncdé f\ngh";
    let e = Error::at(ErrorKind::expected_value("x"), 4, "root")
        .with_trace("outer")
        .with_note("a hint");
    let expected = "\x1b[31;1merror\x1b[0m: Expected value: x\n\
\x1b[34;1m  -->\x1b[0m root:2:6\n\
\x1b[34;1m   |\x1b[0m\n\
\x1b[34;1m2  |\x1b[0m cdé f\n\
\x1b[34;1m   |\x1b[0m     \x1b[31;1m^\x1b[0m\n   \x1b[34;1m= \x1b[0m\x1b[1mnote\x1b[0m: a hint\n   \x1b[34;1m= \x1b[0m\x1b[1mtrace\x1b[0m: root, outer\n";
    assert_eq!(e.render(input), expected);
}

#[test]
fn report_without_a_note_has_no_note_line() {
    let e = Error::at(ErrorKind::expected("digit"), 2, "root");
    let expected = "\x1b[31;1merror\x1b[0m: Expected: digit\n\
\x1b[34;1m  -->\x1b[0m root:1:1\n\
\x1b[34;1m   |\x1b[0m\n\
\x1b[34;1m1  |\x1b[0m ab\n\
\x1b[34;1m   |\x1b[0m \x1b[31;1m^\x1b[0m\n   \x1b[34;1m= \x1b[0m\x1b[1mtrace\x1b[0m: root\n";
    assert_eq!(e.render("ab"), expected);
}

#[test]
fn report_of_a_failure_inside_a_character() {
    let e = Error::at(ErrorKind::expected("digit"), 1, "root");
    let text = e.render("é");
    assert!(text.contains("root:1:2\n"));
    assert!(text.contains("1  |\x1b[0m é\n"));
}
