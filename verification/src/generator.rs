//! What a target language contributes to code generation.
use vstd::prelude::*;
use vstd::string::*;
use crate::condition::{class_of_name, Class, Condition};

verus! {

/// The templates that a generator provides.
pub enum Template {
    ExprCharacter,
    ExprChoice,
    ExprInsens,
    ExprNeg,
    ExprOpt,
    ExprRepCharacter,
    ExprRep,
    ExprSeq,
    ExprStr,
    Outer,
    RuleMethod,
    RuleSilent,
    Rule,
}

/// The texts that a target language provides: the source of a byte test
/// on the variable `c`, the procedures of the builtin identifiers, and
/// the templates of the procedures of every kind of node and rule.
///
/// Each method returns the text that the matching specification function
/// names, so that what is generated is a function of the grammar and of
/// these texts.
pub trait Generator {
    /// The procedures of a builtin identifier, with `expr_id` where the
    /// identifier stands; empty for any other identifier.
    spec fn ident_text(ident: Seq<char>) -> Seq<char>;

    /// The source of the test for a named class.
    spec fn class_text(class: Class) -> Seq<char>;

    /// The source of the test for equality with a byte.
    spec fn character_text(c: u8) -> Seq<char>;

    /// The source of the test for a range of bytes.
    spec fn range_text(c1: u8, c2: u8) -> Seq<char>;

    /// The text of a template.
    spec fn template(which: Template) -> Seq<char>;

    fn ident(ident: &str) -> (r: String)
        ensures
            r@ == Self::ident_text(ident@),
    ;

    fn character_ident(ident: &str) -> (r: Option<&'static str>)
        ensures
            match class_of_name(ident@) {
                Some(class) => r matches Some(t) && t@ == Self::class_text(class),
                None => r is None,
            },
    ;

    fn character(c: u8) -> (r: String)
        ensures
            r@ == Self::character_text(c),
    ;

    fn character_range(c1: u8, c2: u8) -> (r: String)
        ensures
            r@ == Self::range_text(c1, c2),
    ;

    fn pattern_expr_character() -> (r: &'static str)
        ensures
            r@ == Self::template(Template::ExprCharacter),
    ;

    fn pattern_expr_choice() -> (r: &'static str)
        ensures
            r@ == Self::template(Template::ExprChoice),
    ;

    fn pattern_expr_insens() -> (r: &'static str)
        ensures
            r@ == Self::template(Template::ExprInsens),
    ;

    fn pattern_expr_neg() -> (r: &'static str)
        ensures
            r@ == Self::template(Template::ExprNeg),
    ;

    fn pattern_expr_opt() -> (r: &'static str)
        ensures
            r@ == Self::template(Template::ExprOpt),
    ;

    fn pattern_expr_rep_character() -> (r: &'static str)
        ensures
            r@ == Self::template(Template::ExprRepCharacter),
    ;

    fn pattern_expr_rep() -> (r: &'static str)
        ensures
            r@ == Self::template(Template::ExprRep),
    ;

    fn pattern_expr_seq() -> (r: &'static str)
        ensures
            r@ == Self::template(Template::ExprSeq),
    ;

    fn pattern_expr_str() -> (r: &'static str)
        ensures
            r@ == Self::template(Template::ExprStr),
    ;

    fn pattern_outer() -> (r: &'static str)
        ensures
            r@ == Self::template(Template::Outer),
    ;

    fn pattern_rule_method() -> (r: &'static str)
        ensures
            r@ == Self::template(Template::RuleMethod),
    ;

    fn pattern_rule_silent() -> (r: &'static str)
        ensures
            r@ == Self::template(Template::RuleSilent),
    ;

    fn pattern_rule() -> (r: &'static str)
        ensures
            r@ == Self::template(Template::Rule),
    ;
}

/// The source of a byte test on the variable `c`.
pub open spec fn condition_text<G: Generator>(c: Condition) -> Seq<char>
    decreases c,
{
    match c {
        Condition::Byte(b) => G::character_text(b),
        Condition::Range(lo, hi) => G::range_text(lo, hi),
        Condition::Class(class) => G::class_text(class),
        Condition::Not(inner) => "!"@ + condition_text::<G>(*inner),
        Condition::And(left, right) => "("@ + condition_text::<G>(*left) + " && "@
            + condition_text::<G>(*right) + ")"@,
        Condition::Or(left, right) => "("@ + condition_text::<G>(*left) + " || "@
            + condition_text::<G>(*right) + ")"@,
    }
}

/// Every class is named by its own identifier.
pub proof fn lemma_class_names(class: Class)
    ensures
        class_of_name(class.name_text()) == Some(class),
{
    reveal_strlit("ASCII_DIGIT");
    reveal_strlit("ASCII_NONZERO_DIGIT");
    reveal_strlit("ASCII_ALPHA_LOWER");
    reveal_strlit("ASCII_ALPHA_UPPER");
    reveal_strlit("ASCII_ALPHA");
    reveal_strlit("ASCII_ALPHANUMERIC");
    reveal_strlit("ASCII");
    reveal_strlit("ANY");
    assert("ASCII_DIGIT"@.len() == 11);
    assert("ASCII_NONZERO_DIGIT"@.len() == 19);
    assert("ASCII_ALPHA_LOWER"@.len() == 17);
    assert("ASCII_ALPHA_UPPER"@.len() == 17);
    assert("ASCII_ALPHA"@.len() == 11);
    assert("ASCII_ALPHANUMERIC"@.len() == 18);
    assert("ASCII"@.len() == 5);
    assert("ANY"@.len() == 3);
    assert("ASCII_ALPHA"@[6] == 'A');
    assert("ASCII_DIGIT"@[6] == 'D');
    assert("ASCII_ALPHA_UPPER"@[12] == 'U');
    assert("ASCII_ALPHA_LOWER"@[12] == 'L');
}

/// The source of a byte test on the variable `c`.
pub fn condition_code<G: Generator>(c: &Condition) -> (r: String)
    ensures
        r@ == condition_text::<G>(*c),
    decreases c,
{
    match c {
        Condition::Byte(b) => G::character(*b),
        Condition::Range(lo, hi) => G::character_range(*lo, *hi),
        Condition::Class(class) => {
            proof {
                lemma_class_names(*class);
            }
            match G::character_ident(class.name()) {
                Some(text) => String::from_str(text),
                None => String::new(),
            }
        },
        Condition::Not(inner) => {
            let mut r = String::from_str("!");
            r.append(condition_code::<G>(inner).as_str());
            r
        },
        Condition::And(left, right) => {
            let mut r = String::from_str("(");
            r.append(condition_code::<G>(left).as_str());
            r.append(" && ");
            r.append(condition_code::<G>(right).as_str());
            r.append(")");
            r
        },
        Condition::Or(left, right) => {
            let mut r = String::from_str("(");
            r.append(condition_code::<G>(left).as_str());
            r.append(" || ");
            r.append(condition_code::<G>(right).as_str());
            r.append(")");
            r
        },
    }
}

} // verus!
