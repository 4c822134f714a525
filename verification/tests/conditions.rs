use faster_pest::condition::{Class, Condition};

#[test]
fn classes_hold_their_bytes() {
    assert!(Class::Digit.test(b'0') && Class::Digit.test(b'9') && !Class::Digit.test(b'a'));
    assert!(!Class::NonZeroDigit.test(b'0') && Class::NonZeroDigit.test(b'1'));
    assert!(Class::AlphaLower.test(b'a') && !Class::AlphaLower.test(b'A'));
    assert!(Class::AlphaUpper.test(b'Z') && !Class::AlphaUpper.test(b'z'));
    assert!(Class::Alpha.test(b'q') && Class::Alpha.test(b'Q') && !Class::Alpha.test(b'1'));
    assert!(Class::Alphanumeric.test(b'7') && !Class::Alphanumeric.test(b'_'));
    assert!(Class::Ascii.test(127) && !Class::Ascii.test(128));
    assert!(Class::Any.test(0) && Class::Any.test(255));
}

#[test]
fn classes_are_named_by_their_identifiers() {
    for class in [
        Class::Digit,
        Class::NonZeroDigit,
        Class::AlphaLower,
        Class::AlphaUpper,
        Class::Alpha,
        Class::Alphanumeric,
        Class::Ascii,
        Class::Any,
    ] {
        assert_eq!(Class::from_name(class.name()), Some(class));
    }
    assert_eq!(Class::from_name("ASCII_HEX_DIGIT"), None);
}

#[test]
fn conditions_combine() {
    let not_quote = Condition::Not(Box::new(Condition::Byte(b'"')));
    let any = Condition::Class(Class::Any);
    let fused = Condition::And(Box::new(not_quote), Box::new(any));
    assert!(fused.test(b'a'));
    assert!(!fused.test(b'"'));
    let either = Condition::Or(
        Box::new(Condition::Range(b'a', b'f')),
        Box::new(Condition::Class(Class::Digit)),
    );
    assert!(either.test(b'c') && either.test(b'5') && !either.test(b'g'));
    assert!(either.same(&either.copy()));
    assert!(!either.same(&fused));
}
