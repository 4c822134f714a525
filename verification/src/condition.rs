//! Tests on a single input byte.
use vstd::prelude::*;
use crate::text::str_eq;

verus! {

/// The named character classes that are folded into byte tests.
#[derive(Debug, Clone, Copy, PartialEq, Eq)]
pub enum Class {
    Digit,
    NonZeroDigit,
    AlphaLower,
    AlphaUpper,
    Alpha,
    Alphanumeric,
    Ascii,
    Any,
}

/// A boolean test over one input byte.
#[derive(Debug, PartialEq, Eq)]
pub enum Condition {
    /// The byte equals the given one.
    Byte(u8),
    /// The byte lies between the two bounds, both included.
    Range(u8, u8),
    /// The byte belongs to a named class.
    Class(Class),
    Not(Box<Condition>),
    And(Box<Condition>, Box<Condition>),
    Or(Box<Condition>, Box<Condition>),
}

/// The byte is an ASCII digit.
pub open spec fn is_digit(c: u8) -> bool {
    48 <= c <= 57
}

/// The byte is an ASCII letter in lower case.
pub open spec fn is_lower(c: u8) -> bool {
    97 <= c <= 122
}

/// The byte is an ASCII letter in upper case.
pub open spec fn is_upper(c: u8) -> bool {
    65 <= c <= 90
}

/// The class that a builtin identifier names, if it names one.
pub open spec fn class_of_name(name: Seq<char>) -> Option<Class> {
    if name == "ASCII_DIGIT"@ {
        Some(Class::Digit)
    } else if name == "ASCII_NONZERO_DIGIT"@ {
        Some(Class::NonZeroDigit)
    } else if name == "ASCII_ALPHA_LOWER"@ {
        Some(Class::AlphaLower)
    } else if name == "ASCII_ALPHA_UPPER"@ {
        Some(Class::AlphaUpper)
    } else if name == "ASCII_ALPHA"@ {
        Some(Class::Alpha)
    } else if name == "ASCII_ALPHANUMERIC"@ {
        Some(Class::Alphanumeric)
    } else if name == "ASCII"@ {
        Some(Class::Ascii)
    } else if name == "ANY"@ {
        Some(Class::Any)
    } else {
        None
    }
}

impl Class {
    /// The class that a builtin identifier names, if it names one.
    pub fn from_name(name: &str) -> (r: Option<Class>)
        ensures
            r == class_of_name(name@),
    {
        if str_eq(name, "ASCII_DIGIT") {
            Some(Class::Digit)
        } else if str_eq(name, "ASCII_NONZERO_DIGIT") {
            Some(Class::NonZeroDigit)
        } else if str_eq(name, "ASCII_ALPHA_LOWER") {
            Some(Class::AlphaLower)
        } else if str_eq(name, "ASCII_ALPHA_UPPER") {
            Some(Class::AlphaUpper)
        } else if str_eq(name, "ASCII_ALPHA") {
            Some(Class::Alpha)
        } else if str_eq(name, "ASCII_ALPHANUMERIC") {
            Some(Class::Alphanumeric)
        } else if str_eq(name, "ASCII") {
            Some(Class::Ascii)
        } else if str_eq(name, "ANY") {
            Some(Class::Any)
        } else {
            None
        }
    }

    /// The identifier that names the class.
    pub fn name(&self) -> (r: &'static str)
        ensures
            r@ == self.name_text(),
    {
        match self {
            Class::Digit => "ASCII_DIGIT",
            Class::NonZeroDigit => "ASCII_NONZERO_DIGIT",
            Class::AlphaLower => "ASCII_ALPHA_LOWER",
            Class::AlphaUpper => "ASCII_ALPHA_UPPER",
            Class::Alpha => "ASCII_ALPHA",
            Class::Alphanumeric => "ASCII_ALPHANUMERIC",
            Class::Ascii => "ASCII",
            Class::Any => "ANY",
        }
    }

    /// The identifier that names the class.
    pub open spec fn name_text(self) -> Seq<char> {
        match self {
            Class::Digit => "ASCII_DIGIT"@,
            Class::NonZeroDigit => "ASCII_NONZERO_DIGIT"@,
            Class::AlphaLower => "ASCII_ALPHA_LOWER"@,
            Class::AlphaUpper => "ASCII_ALPHA_UPPER"@,
            Class::Alpha => "ASCII_ALPHA"@,
            Class::Alphanumeric => "ASCII_ALPHANUMERIC"@,
            Class::Ascii => "ASCII"@,
            Class::Any => "ANY"@,
        }
    }

    /// Whether the class holds the byte.
    pub open spec fn accepts(self, c: u8) -> bool {
        match self {
            Class::Digit => is_digit(c),
            Class::NonZeroDigit => is_digit(c) && c != 48,
            Class::AlphaLower => is_lower(c),
            Class::AlphaUpper => is_upper(c),
            Class::Alpha => is_lower(c) || is_upper(c),
            Class::Alphanumeric => is_digit(c) || is_lower(c) || is_upper(c),
            Class::Ascii => c < 128,
            Class::Any => true,
        }
    }

    /// Whether the class holds the byte.
    pub fn test(&self, c: u8) -> (r: bool)
        ensures
            r == self.accepts(c),
    {
        match self {
            Class::Digit => 48 <= c && c <= 57,
            Class::NonZeroDigit => 49 <= c && c <= 57,
            Class::AlphaLower => 97 <= c && c <= 122,
            Class::AlphaUpper => 65 <= c && c <= 90,
            Class::Alpha => (97 <= c && c <= 122) || (65 <= c && c <= 90),
            Class::Alphanumeric => (48 <= c && c <= 57) || (97 <= c && c <= 122) || (65 <= c
                && c <= 90),
            Class::Ascii => c < 128,
            Class::Any => true,
        }
    }

    /// Whether the two classes are the same.
    pub fn same(&self, other: &Class) -> (r: bool)
        ensures
            r == (*self == *other),
    {
        match (self, other) {
            (Class::Digit, Class::Digit) => true,
            (Class::NonZeroDigit, Class::NonZeroDigit) => true,
            (Class::AlphaLower, Class::AlphaLower) => true,
            (Class::AlphaUpper, Class::AlphaUpper) => true,
            (Class::Alpha, Class::Alpha) => true,
            (Class::Alphanumeric, Class::Alphanumeric) => true,
            (Class::Ascii, Class::Ascii) => true,
            (Class::Any, Class::Any) => true,
            _ => false,
        }
    }

    /// A copy.
    pub fn copy(&self) -> (r: Class)
        ensures
            r == *self,
    {
        match self {
            Class::Digit => Class::Digit,
            Class::NonZeroDigit => Class::NonZeroDigit,
            Class::AlphaLower => Class::AlphaLower,
            Class::AlphaUpper => Class::AlphaUpper,
            Class::Alpha => Class::Alpha,
            Class::Alphanumeric => Class::Alphanumeric,
            Class::Ascii => Class::Ascii,
            Class::Any => Class::Any,
        }
    }
}

impl Condition {
    /// Whether the test holds of the byte.
    pub open spec fn accepts(self, c: u8) -> bool
        decreases self,
    {
        match self {
            Condition::Byte(b) => c == b,
            Condition::Range(lo, hi) => lo <= c <= hi,
            Condition::Class(class) => class.accepts(c),
            Condition::Not(inner) => !inner.accepts(c),
            Condition::And(left, right) => left.accepts(c) && right.accepts(c),
            Condition::Or(left, right) => left.accepts(c) || right.accepts(c),
        }
    }

    /// Evaluates the test on one byte.
    pub fn test(&self, c: u8) -> (r: bool)
        ensures
            r == self.accepts(c),
        decreases self,
    {
        match self {
            Condition::Byte(b) => c == *b,
            Condition::Range(lo, hi) => *lo <= c && c <= *hi,
            Condition::Class(class) => class.test(c),
            Condition::Not(inner) => !inner.test(c),
            Condition::And(left, right) => left.test(c) && right.test(c),
            Condition::Or(left, right) => left.test(c) || right.test(c),
        }
    }

    /// Structural equality.
    pub fn same(&self, other: &Condition) -> (r: bool)
        ensures
            r == (*self == *other),
        decreases self,
    {
        match (self, other) {
            (Condition::Byte(a), Condition::Byte(b)) => *a == *b,
            (Condition::Range(a, b), Condition::Range(c, d)) => *a == *c && *b == *d,
            (Condition::Class(a), Condition::Class(b)) => a.same(b),
            (Condition::Not(a), Condition::Not(b)) => a.same(b),
            (Condition::And(a, b), Condition::And(c, d)) => a.same(c) && b.same(d),
            (Condition::Or(a, b), Condition::Or(c, d)) => a.same(c) && b.same(d),
            _ => false,
        }
    }

    /// A deep copy.
    pub fn copy(&self) -> (r: Condition)
        ensures
            r == *self,
        decreases self,
    {
        match self {
            Condition::Byte(b) => Condition::Byte(*b),
            Condition::Range(lo, hi) => Condition::Range(*lo, *hi),
            Condition::Class(class) => Condition::Class(class.copy()),
            Condition::Not(inner) => Condition::Not(Box::new(inner.copy())),
            Condition::And(left, right) => Condition::And(
                Box::new(left.copy()),
                Box::new(right.copy()),
            ),
            Condition::Or(left, right) => Condition::Or(
                Box::new(left.copy()),
                Box::new(right.copy()),
            ),
        }
    }
}

} // verus!
