//! The generator for Rust.
//!
//! The procedures that it emits take the whole input and a position in
//! it, and return the position after the match. They use the error and
//! label types of this crate.
//!
//! In every template `expr_id` stands for the name of the expression,
//! `expr_pest` for its notation, `formatted_idents` for the parameter
//! that takes the label list and `own_idents` for the word that hands the
//! list on. The lines after `//IDENTS` are for procedures that take the
//! list.
use vstd::prelude::*;
use vstd::string::*;
use crate::condition::Class;
use crate::generator::{Generator, Template};
use crate::semantics::{builtin_of, Builtin};
use crate::text::{append_decimal, decimal_text};

verus! {

/// The procedures of the end of the input.
pub const IDENT_EOI: &'static str =
    "pub fn parse_expr_id(input: &[u8], pos: usize) -> Result<usize, Error> {\n    if pos == input.len() {\n        Ok(pos)\n    } else {\n        Err(Error::at(ErrorKind::Expected(\"EOI\".to_string()), input.len() - pos, \"EOI\"))\n    }\n}\npub fn quick_parse_expr_id(input: &[u8], pos: usize) -> Option<usize> {\n    if pos == input.len() {\n        Some(pos)\n    } else {\n        None\n    }\n}\n";

/// The procedures of the start of the input, which match everywhere.
pub const IDENT_SOI: &'static str =
    "pub fn parse_expr_id(input: &[u8], pos: usize) -> Result<usize, Error> {\n    Ok(pos)\n}\npub fn quick_parse_expr_id(input: &[u8], pos: usize) -> Option<usize> {\n    Some(pos)\n}\n";

/// The procedures of a line break: `\r\n`, or else one of `\n`, `\r`.
pub const IDENT_NEWLINE: &'static str =
    "pub fn parse_expr_id(input: &[u8], pos: usize) -> Result<usize, Error> {\n    match quick_parse_expr_id(input, pos) {\n        Some(end) => Ok(end),\n        None => Err(Error::at(ErrorKind::Expected(\"newline\".to_string()), input.len() - pos, \"NEWLINE\")),\n    }\n}\npub fn quick_parse_expr_id(input: &[u8], pos: usize) -> Option<usize> {\n    if input[pos..].starts_with(b\"\\r\\n\") {\n        Some(pos + 2)\n    } else if input[pos..].starts_with(b\"\\n\") || input[pos..].starts_with(b\"\\r\") {\n        Some(pos + 1)\n    } else {\n        None\n    }\n}\n";

/// The procedures of a byte test. `character_condition` stands for the
/// source of the test.
pub const PATTERN_EXPR_CHARACTER: &'static str =
    "// expr_pest\npub fn parse_expr_id(input: &[u8], pos: usize) -> Result<usize, Error> {\n    match quick_parse_expr_id(input, pos) {\n        Some(end) => Ok(end),\n        None => Err(Error::at(ErrorKind::Expected(r#\"character_condition\"#.to_string()), input.len() - pos, r#\"expr_pest\"#)),\n    }\n}\npub fn quick_parse_expr_id(input: &[u8], pos: usize) -> Option<usize> {\n    match input.get(pos) {\n        Some(c) if character_condition => Some(pos + 1),\n        _ => None,\n    }\n}\n";

/// The procedures of a choice. The lines with `choice_item_id` are
/// written once for every alternative; `choice_idents` stands for the
/// word that hands the label list on.
pub const PATTERN_EXPR_CHOICE: &'static str =
    "// expr_pest\npub fn parse_expr_id(input: &[u8], pos: usize, formatted_idents) -> Result<usize, Error> {\n    //IDENTS let idents_len = idents.len();\n    if let Some(end) = quick_parse_choice_item_id(input, pos, choice_idents) { return Ok(end); } //IDENTS idents.truncate(idents_len);\n    let mut errors = Vec::new();\n    if let Err(e) = parse_choice_item_id(input, pos, choice_idents) { errors.push(e); } //IDENTS idents.truncate(idents_len);\n    Err(Error::at(ErrorKind::All(errors), input.len() - pos, r#\"expr_pest\"#))\n}\npub fn quick_parse_expr_id(input: &[u8], pos: usize, formatted_idents) -> Option<usize> {\n    //IDENTS let idents_len = idents.len();\n    if let Some(end) = quick_parse_choice_item_id(input, pos, choice_idents) { return Some(end); } //IDENTS idents.truncate(idents_len);\n    None\n}\n";

/// The procedures of a case-insensitive literal. `expr_str` stands for
/// the literal, `expr_inv_str` for the literal with the case inverted,
/// `expr_len_str` for its length in bytes.
pub const PATTERN_EXPR_INSENS: &'static str =
    "// expr_pest\npub fn parse_expr_id(input: &[u8], pos: usize) -> Result<usize, Error> {\n    match quick_parse_expr_id(input, pos) {\n        Some(end) => Ok(end),\n        None => Err(Error::at(ErrorKind::ExpectedValue(expr_str.to_string()), input.len() - pos, r#\"expr_pest\"#)),\n    }\n}\npub fn quick_parse_expr_id(input: &[u8], pos: usize) -> Option<usize> {\n    if input.len() - pos < expr_len_str {\n        return None;\n    }\n    for i in 0..expr_len_str {\n        if input[pos + i] != expr_str.as_bytes()[i] && input[pos + i] != expr_inv_str.as_bytes()[i] {\n            return None;\n        }\n    }\n    Some(pos + expr_len_str)\n}\n";

/// The procedures of a negative lookahead. `inner_eid` stands for the
/// name of the inner expression, `inner_pest` for its notation.
pub const PATTERN_EXPR_NEG: &'static str =
    "// expr_pest\npub fn parse_expr_id(input: &[u8], pos: usize, formatted_idents) -> Result<usize, Error> {\n    match quick_parse_expr_id(input, pos, own_idents) {\n        Some(end) => Ok(end),\n        None => Err(Error::at(ErrorKind::NegPredFailed(r#\"inner_pest\"#.to_string()), input.len() - pos, r#\"expr_pest\"#)),\n    }\n}\npub fn quick_parse_expr_id(input: &[u8], pos: usize, formatted_idents) -> Option<usize> {\n    //IDENTS let idents_len = idents.len();\n    let found = quick_parse_inner_eid(input, pos, inner_idents);\n    //IDENTS idents.truncate(idents_len);\n    if found.is_none() {\n        Some(pos)\n    } else {\n        None\n    }\n}\n";

/// The procedures of an optional expression. `inner_eid` stands for the
/// name of the inner expression.
pub const PATTERN_EXPR_OPT: &'static str =
    "// expr_pest\npub fn parse_expr_id(input: &[u8], pos: usize, formatted_idents) -> Result<usize, Error> {\n    Ok(quick_parse_expr_id(input, pos, own_idents).unwrap_or(pos))\n}\npub fn quick_parse_expr_id(input: &[u8], pos: usize, formatted_idents) -> Option<usize> {\n    //IDENTS let idents_len = idents.len();\n    if let Some(end) = quick_parse_inner_eid(input, pos, inner_idents) {\n        return Some(end);\n    }\n    //IDENTS idents.truncate(idents_len);\n    Some(pos)\n}\n";

/// The procedures of a repeated byte test, which scan the input. The
/// lines after `//NON-EMPTY` are for a repetition that needs one byte.
pub const PATTERN_EXPR_REP_CHARACTER: &'static str =
    "// expr_pest\npub fn parse_expr_id(input: &[u8], pos: usize, formatted_idents) -> Result<usize, Error> {\n    let i = input[pos..].iter().position(|c| !(character_condition)).unwrap_or(input.len() - pos);\n    //NON-EMPTY if i == 0 {\n    //NON-EMPTY     return Err(Error::at(ErrorKind::Expected(r#\"character_condition\"#.to_string()), input.len() - pos, r#\"expr_pest\"#));\n    //NON-EMPTY }\n    Ok(pos + i)\n}\npub fn quick_parse_expr_id(input: &[u8], pos: usize, formatted_idents) -> Option<usize> {\n    let i = input[pos..].iter().position(|c| !(character_condition)).unwrap_or(input.len() - pos);\n    //NON-EMPTY if i == 0 {\n    //NON-EMPTY     return None;\n    //NON-EMPTY }\n    Some(pos + i)\n}\n";

/// The procedures of a repetition. The lines after `//NON-EMPTY` are for
/// a repetition that needs one occurrence, those after `//WSP` for a
/// grammar with a whitespace rule.
pub const PATTERN_EXPR_REP: &'static str =
    "// expr_pest\npub fn parse_expr_id(input: &[u8], pos: usize, formatted_idents) -> Result<usize, Error> {\n    let mut cur = pos;\n    //NON-EMPTY cur = parse_inner_eid(input, cur, inner_idents)?;\n    //NON-EMPTY //WSP while let Some(next) = quick_parse_WHITESPACE(input, cur, idents) { if next == cur { break; } cur = next; }\n    Ok(more_expr_id(input, cur, own_idents))\n}\npub fn quick_parse_expr_id(input: &[u8], pos: usize, formatted_idents) -> Option<usize> {\n    let mut cur = pos;\n    //NON-EMPTY cur = quick_parse_inner_eid(input, cur, inner_idents)?;\n    //NON-EMPTY //WSP while let Some(next) = quick_parse_WHITESPACE(input, cur, idents) { if next == cur { break; } cur = next; }\n    Some(more_expr_id(input, cur, own_idents))\n}\nfn more_expr_id(input: &[u8], pos: usize, formatted_idents) -> usize {\n    let mut cur = pos;\n    loop {\n        //IDENTS let idents_len = idents.len();\n        let mut end = match quick_parse_inner_eid(input, cur, inner_idents) {\n            Some(end) => end,\n            None => return cur,\n        };\n        //WSP while let Some(next) = quick_parse_WHITESPACE(input, end, idents) { if next == end { break; } end = next; }\n        if end == cur {\n            //IDENTS idents.truncate(idents_len);\n            return cur;\n        }\n        cur = end;\n    }\n}\n";

/// The procedures of a sequence. The lines with `seq_item_id` are written
/// once for every item; `seq_n` stands for the place of the item and
/// `seq_hint` for the source that attaches its hint. What follows `//WSP`
/// is for a grammar with a whitespace rule.
pub const PATTERN_EXPR_SEQ: &'static str =
    "// expr_pest\npub fn parse_expr_id(input: &[u8], pos: usize, formatted_idents) -> Result<usize, Error> {\n    //IDENTS let idents_len = idents.len();\n    let mut run = || -> Result<usize, Error> {\n        let mut cur = pos;\n        cur = parse_seq_item_id(input, cur, seq_idents).map_err(|e| e seq_hint.with_trace(r#\"expr_pest arm seq_n\"#))?; //WSP while let Some(next) = quick_parse_WHITESPACE(input, cur, idents) { if next == cur { break; } cur = next; }\n        Ok(cur)\n    };\n    let result = run();\n    //IDENTS if result.is_err() { idents.truncate(idents_len); }\n    result\n}\npub fn quick_parse_expr_id(input: &[u8], pos: usize, formatted_idents) -> Option<usize> {\n    //IDENTS let idents_len = idents.len();\n    let mut run = || -> Option<usize> {\n        let mut cur = pos;\n        cur = quick_parse_seq_item_id(input, cur, seq_idents)?; //WSP while let Some(next) = quick_parse_WHITESPACE(input, cur, idents) { if next == cur { break; } cur = next; }\n        Some(cur)\n    };\n    let result = run();\n    //IDENTS if result.is_none() { idents.truncate(idents_len); }\n    result\n}\n";

/// The procedures of a literal. `expr_str` stands for the literal.
pub const PATTERN_EXPR_STR: &'static str =
    "// expr_pest\npub fn parse_expr_id(input: &[u8], pos: usize) -> Result<usize, Error> {\n    match quick_parse_expr_id(input, pos) {\n        Some(end) => Ok(end),\n        None => Err(Error::at(ErrorKind::ExpectedValue(expr_str.to_string()), input.len() - pos, r#\"expr_pest\"#)),\n    }\n}\npub fn quick_parse_expr_id(input: &[u8], pos: usize) -> Option<usize> {\n    if input[pos..].starts_with(expr_str.as_bytes()) {\n        Some(pos + expr_str.len())\n    } else {\n        None\n    }\n}\n";

/// The frame of a parser. The lines with `RuleVariant` are written once
/// for every rule that is not silent; `StructIdent` stands for the name
/// of the parser, and `    // inner code` for all the procedures.
pub const PATTERN_OUTER: &'static str =
    "#[allow(non_camel_case_types)]\n#[derive(Debug, Copy, Clone, Eq, PartialEq, Hash, Ord, PartialOrd)]\npub enum Rule {\n    RuleVariant,\n}\n\n#[allow(non_snake_case)]\nimpl StructIdent {\n    pub fn parse(rule: Rule, input: &str) -> Result<faster_pest::IdentList<'_>, faster_pest::Error> {\n        match rule {\n            Rule::RuleVariant => StructIdent::parse_RuleVariant(input),\n        }\n    }\n}\n\n#[allow(clippy::all, non_snake_case, unused)]\nmod StructIdent_faster_pest {\n    use super::*;\n    use faster_pest::{Error, ErrorKind, Ident, IdentList};\n\n    // inner code\n}\n";

/// The entry point of a rule: the quick procedure first, and the full
/// one for the error where the quick one fails.
pub const PATTERN_RULE_METHOD: &'static str =
    "impl StructIdent {\n    pub fn parse_RuleVariant(input: &str) -> Result<IdentList<'_>, Error> {\n        let mut idents = Vec::with_capacity(500);\n        if quick_parse_RuleVariant(input.as_bytes(), 0, &mut idents).is_none() {\n            idents.clear();\n            parse_RuleVariant(input.as_bytes(), 0, &mut idents)?;\n        }\n        Ok(IdentList::from_idents(idents, input).expect(\"a nested list\"))\n    }\n}\n";

/// The entry procedures of a silent rule. `top_expr_id` stands for the
/// name of the body of the rule.
pub const PATTERN_RULE_SILENT: &'static str =
    "pub fn parse_RuleVariant(input: &[u8], pos: usize, idents: &mut Vec<(Ident, usize)>) -> Result<usize, Error> {\n    parse_top_expr_id(input, pos, formatted_idents)\n}\n\npub fn quick_parse_RuleVariant(input: &[u8], pos: usize, idents: &mut Vec<(Ident, usize)>) -> Option<usize> {\n    quick_parse_top_expr_id(input, pos, formatted_idents)\n}\n";

/// The entry procedures of a rule that leaves a label.
pub const PATTERN_RULE: &'static str =
    "pub fn parse_RuleVariant(input: &[u8], pos: usize, idents: &mut Vec<(Ident, usize)>) -> Result<usize, Error> {\n    let idents_len = idents.len();\n    let rule = faster_pest::pattern_outer::Rule(Rule::RuleVariant as usize);\n    idents.push((Ident { rule, start: pos, end: pos }, idents_len));\n    match parse_top_expr_id(input, pos, formatted_idents) {\n        Ok(end) => {\n            idents[idents_len] = (Ident { rule, start: pos, end }, idents.len());\n            Ok(end)\n        }\n        Err(e) => {\n            idents.truncate(idents_len);\n            Err(e)\n        }\n    }\n}\n\npub fn quick_parse_RuleVariant(input: &[u8], pos: usize, idents: &mut Vec<(Ident, usize)>) -> Option<usize> {\n    let idents_len = idents.len();\n    let rule = faster_pest::pattern_outer::Rule(Rule::RuleVariant as usize);\n    idents.push((Ident { rule, start: pos, end: pos }, idents_len));\n    match quick_parse_top_expr_id(input, pos, formatted_idents) {\n        Some(end) => {\n            idents[idents_len] = (Ident { rule, start: pos, end }, idents.len());\n            Some(end)\n        }\n        None => {\n            idents.truncate(idents_len);\n            None\n        }\n    }\n}\n";

/// Generates Rust.
pub struct RustGenerator;

impl Generator for RustGenerator {
    open spec fn ident_text(ident: Seq<char>) -> Seq<char> {
        match builtin_of(ident) {
            Some(Builtin::Eoi) => IDENT_EOI@,
            Some(Builtin::Soi) => IDENT_SOI@,
            Some(Builtin::Newline) => IDENT_NEWLINE@,
            None => Seq::empty(),
        }
    }

    open spec fn class_text(class: Class) -> Seq<char> {
        match class {
            Class::Digit => "c.is_ascii_digit()"@,
            Class::NonZeroDigit => "(c.is_ascii_digit() && c != &b'0')"@,
            Class::AlphaLower => "c.is_ascii_lowercase()"@,
            Class::AlphaUpper => "c.is_ascii_uppercase()"@,
            Class::Alpha => "c.is_ascii_alphabetic()"@,
            Class::Alphanumeric => "c.is_ascii_alphanumeric()"@,
            Class::Ascii => "c.is_ascii()"@,
            Class::Any => "true"@,
        }
    }

    open spec fn character_text(c: u8) -> Seq<char> {
        "(c == &"@ + decimal_text(c as nat) + ")"@
    }

    open spec fn range_text(c1: u8, c2: u8) -> Seq<char> {
        "(c >= &"@ + decimal_text(c1 as nat) + " && c <= &"@ + decimal_text(c2 as nat) + ")"@
    }

    open spec fn template(which: Template) -> Seq<char> {
        match which {
            Template::ExprCharacter => PATTERN_EXPR_CHARACTER@,
            Template::ExprChoice => PATTERN_EXPR_CHOICE@,
            Template::ExprInsens => PATTERN_EXPR_INSENS@,
            Template::ExprNeg => PATTERN_EXPR_NEG@,
            Template::ExprOpt => PATTERN_EXPR_OPT@,
            Template::ExprRepCharacter => PATTERN_EXPR_REP_CHARACTER@,
            Template::ExprRep => PATTERN_EXPR_REP@,
            Template::ExprSeq => PATTERN_EXPR_SEQ@,
            Template::ExprStr => PATTERN_EXPR_STR@,
            Template::Outer => PATTERN_OUTER@,
            Template::RuleMethod => PATTERN_RULE_METHOD@,
            Template::RuleSilent => PATTERN_RULE_SILENT@,
            Template::Rule => PATTERN_RULE@,
        }
    }

    fn ident(ident: &str) -> (r: String) {
        match Builtin::from_name(ident) {
            Some(Builtin::Eoi) => String::from_str(IDENT_EOI),
            Some(Builtin::Soi) => String::from_str(IDENT_SOI),
            Some(Builtin::Newline) => String::from_str(IDENT_NEWLINE),
            None => String::new(),
        }
    }

    fn character_ident(ident: &str) -> (r: Option<&'static str>) {
        match Class::from_name(ident) {
            Some(Class::Digit) => Some("c.is_ascii_digit()"),
            Some(Class::NonZeroDigit) => Some("(c.is_ascii_digit() && c != &b'0')"),
            Some(Class::AlphaLower) => Some("c.is_ascii_lowercase()"),
            Some(Class::AlphaUpper) => Some("c.is_ascii_uppercase()"),
            Some(Class::Alpha) => Some("c.is_ascii_alphabetic()"),
            Some(Class::Alphanumeric) => Some("c.is_ascii_alphanumeric()"),
            Some(Class::Ascii) => Some("c.is_ascii()"),
            Some(Class::Any) => Some("true"),
            None => None,
        }
    }

    fn character(c: u8) -> (r: String) {
        let mut r = String::from_str("(c == &");
        append_decimal(&mut r, c as usize);
        r.append(")");
        r
    }

    fn character_range(c1: u8, c2: u8) -> (r: String) {
        let mut r = String::from_str("(c >= &");
        append_decimal(&mut r, c1 as usize);
        r.append(" && c <= &");
        append_decimal(&mut r, c2 as usize);
        r.append(")");
        r
    }

    fn pattern_expr_character() -> (r: &'static str) {
        PATTERN_EXPR_CHARACTER
    }

    fn pattern_expr_choice() -> (r: &'static str) {
        PATTERN_EXPR_CHOICE
    }

    fn pattern_expr_insens() -> (r: &'static str) {
        PATTERN_EXPR_INSENS
    }

    fn pattern_expr_neg() -> (r: &'static str) {
        PATTERN_EXPR_NEG
    }

    fn pattern_expr_opt() -> (r: &'static str) {
        PATTERN_EXPR_OPT
    }

    fn pattern_expr_rep_character() -> (r: &'static str) {
        PATTERN_EXPR_REP_CHARACTER
    }

    fn pattern_expr_rep() -> (r: &'static str) {
        PATTERN_EXPR_REP
    }

    fn pattern_expr_seq() -> (r: &'static str) {
        PATTERN_EXPR_SEQ
    }

    fn pattern_expr_str() -> (r: &'static str) {
        PATTERN_EXPR_STR
    }

    fn pattern_outer() -> (r: &'static str) {
        PATTERN_OUTER
    }

    fn pattern_rule_method() -> (r: &'static str) {
        PATTERN_RULE_METHOD
    }

    fn pattern_rule_silent() -> (r: &'static str) {
        PATTERN_RULE_SILENT
    }

    fn pattern_rule() -> (r: &'static str) {
        PATTERN_RULE
    }
}

} // verus!
