#![allow(non_snake_case, non_camel_case_types, unused)]
use faster_pest::generate::gen;
use faster_pest::grammar::Grammar;
use faster_pest::pattern_rule_method::parse_RuleVariant;
use faster_pest::rules::{compile_rules, get_all_rules};
use faster_pest::rust_generator::RustGenerator;
use faster_pest::{Error, ErrorKind, Ident, IdentList};

const GRAMMAR: &str = "WHITESPACE = _{ \" \" }\nkey = { ASCII_ALPHA+ }\nvalue = { (!\";\" ~ ANY)+ | ^\"none\" }\npair = { key ~ \"=\" ~ value? ~ \";\" }\nfile = { SOI ~ (pair ~ NEWLINE)* ~ EOI }\nflag = { \"yes\" | \"no\" }\nmany = { flag+ }";

/// The parser whose source follows: what the generator emits for
/// `GRAMMAR`, without the module that it puts the procedures in.
pub struct Sample;

#[allow(non_camel_case_types)]
#[derive(Debug, Copy, Clone, Eq, PartialEq, Hash, Ord, PartialOrd)]
pub enum Rule {
    file,
    flag,
    key,
    many,
    pair,
    value,
}

#[allow(non_snake_case)]
impl Sample {
    pub fn parse(rule: Rule, input: &str) -> Result<faster_pest::IdentList<'_>, faster_pest::Error> {
        match rule {
            Rule::file => Sample::parse_file(input),
            Rule::flag => Sample::parse_flag(input),
            Rule::key => Sample::parse_key(input),
            Rule::many => Sample::parse_many(input),
            Rule::pair => Sample::parse_pair(input),
            Rule::value => Sample::parse_value(input),
        }
    }
}


pub fn parse_WHITESPACE(input: &[u8], pos: usize, idents: &mut Vec<(Ident, usize)>) -> Result<usize, Error> {
    parse_anon_0000(input, pos, )
}

pub fn quick_parse_WHITESPACE(input: &[u8], pos: usize, idents: &mut Vec<(Ident, usize)>) -> Option<usize> {
    quick_parse_anon_0000(input, pos, )
}
impl Sample {
    pub fn parse_WHITESPACE(input: &str) -> Result<IdentList<'_>, Error> {
        let mut idents = Vec::with_capacity(500);
        if quick_parse_WHITESPACE(input.as_bytes(), 0, &mut idents).is_none() {
            idents.clear();
            parse_WHITESPACE(input.as_bytes(), 0, &mut idents)?;
        }
        Ok(IdentList::from_idents(idents, input).expect("a nested list"))
    }
}
pub fn parse_file(input: &[u8], pos: usize, idents: &mut Vec<(Ident, usize)>) -> Result<usize, Error> {
    let idents_len = idents.len();
    let rule = faster_pest::pattern_outer::Rule(Rule::file as usize);
    idents.push((Ident { rule, start: pos, end: pos }, idents_len));
    match parse_anon_0001(input, pos, idents) {
        Ok(end) => {
            idents[idents_len] = (Ident { rule, start: pos, end }, idents.len());
            Ok(end)
        }
        Err(e) => {
            idents.truncate(idents_len);
            Err(e)
        }
    }
}

pub fn quick_parse_file(input: &[u8], pos: usize, idents: &mut Vec<(Ident, usize)>) -> Option<usize> {
    let idents_len = idents.len();
    let rule = faster_pest::pattern_outer::Rule(Rule::file as usize);
    idents.push((Ident { rule, start: pos, end: pos }, idents_len));
    match quick_parse_anon_0001(input, pos, idents) {
        Some(end) => {
            idents[idents_len] = (Ident { rule, start: pos, end }, idents.len());
            Some(end)
        }
        None => {
            idents.truncate(idents_len);
            None
        }
    }
}
impl Sample {
    pub fn parse_file(input: &str) -> Result<IdentList<'_>, Error> {
        let mut idents = Vec::with_capacity(500);
        if quick_parse_file(input.as_bytes(), 0, &mut idents).is_none() {
            idents.clear();
            parse_file(input.as_bytes(), 0, &mut idents)?;
        }
        Ok(IdentList::from_idents(idents, input).expect("a nested list"))
    }
}
pub fn parse_flag(input: &[u8], pos: usize, idents: &mut Vec<(Ident, usize)>) -> Result<usize, Error> {
    let idents_len = idents.len();
    let rule = faster_pest::pattern_outer::Rule(Rule::flag as usize);
    idents.push((Ident { rule, start: pos, end: pos }, idents_len));
    match parse_anon_0002(input, pos, ) {
        Ok(end) => {
            idents[idents_len] = (Ident { rule, start: pos, end }, idents.len());
            Ok(end)
        }
        Err(e) => {
            idents.truncate(idents_len);
            Err(e)
        }
    }
}

pub fn quick_parse_flag(input: &[u8], pos: usize, idents: &mut Vec<(Ident, usize)>) -> Option<usize> {
    let idents_len = idents.len();
    let rule = faster_pest::pattern_outer::Rule(Rule::flag as usize);
    idents.push((Ident { rule, start: pos, end: pos }, idents_len));
    match quick_parse_anon_0002(input, pos, ) {
        Some(end) => {
            idents[idents_len] = (Ident { rule, start: pos, end }, idents.len());
            Some(end)
        }
        None => {
            idents.truncate(idents_len);
            None
        }
    }
}
impl Sample {
    pub fn parse_flag(input: &str) -> Result<IdentList<'_>, Error> {
        let mut idents = Vec::with_capacity(500);
        if quick_parse_flag(input.as_bytes(), 0, &mut idents).is_none() {
            idents.clear();
            parse_flag(input.as_bytes(), 0, &mut idents)?;
        }
        Ok(IdentList::from_idents(idents, input).expect("a nested list"))
    }
}
pub fn parse_key(input: &[u8], pos: usize, idents: &mut Vec<(Ident, usize)>) -> Result<usize, Error> {
    let idents_len = idents.len();
    let rule = faster_pest::pattern_outer::Rule(Rule::key as usize);
    idents.push((Ident { rule, start: pos, end: pos }, idents_len));
    match parse_anon_0003(input, pos, idents) {
        Ok(end) => {
            idents[idents_len] = (Ident { rule, start: pos, end }, idents.len());
            Ok(end)
        }
        Err(e) => {
            idents.truncate(idents_len);
            Err(e)
        }
    }
}

pub fn quick_parse_key(input: &[u8], pos: usize, idents: &mut Vec<(Ident, usize)>) -> Option<usize> {
    let idents_len = idents.len();
    let rule = faster_pest::pattern_outer::Rule(Rule::key as usize);
    idents.push((Ident { rule, start: pos, end: pos }, idents_len));
    match quick_parse_anon_0003(input, pos, idents) {
        Some(end) => {
            idents[idents_len] = (Ident { rule, start: pos, end }, idents.len());
            Some(end)
        }
        None => {
            idents.truncate(idents_len);
            None
        }
    }
}
impl Sample {
    pub fn parse_key(input: &str) -> Result<IdentList<'_>, Error> {
        let mut idents = Vec::with_capacity(500);
        if quick_parse_key(input.as_bytes(), 0, &mut idents).is_none() {
            idents.clear();
            parse_key(input.as_bytes(), 0, &mut idents)?;
        }
        Ok(IdentList::from_idents(idents, input).expect("a nested list"))
    }
}
pub fn parse_many(input: &[u8], pos: usize, idents: &mut Vec<(Ident, usize)>) -> Result<usize, Error> {
    let idents_len = idents.len();
    let rule = faster_pest::pattern_outer::Rule(Rule::many as usize);
    idents.push((Ident { rule, start: pos, end: pos }, idents_len));
    match parse_anon_0004(input, pos, idents) {
        Ok(end) => {
            idents[idents_len] = (Ident { rule, start: pos, end }, idents.len());
            Ok(end)
        }
        Err(e) => {
            idents.truncate(idents_len);
            Err(e)
        }
    }
}

pub fn quick_parse_many(input: &[u8], pos: usize, idents: &mut Vec<(Ident, usize)>) -> Option<usize> {
    let idents_len = idents.len();
    let rule = faster_pest::pattern_outer::Rule(Rule::many as usize);
    idents.push((Ident { rule, start: pos, end: pos }, idents_len));
    match quick_parse_anon_0004(input, pos, idents) {
        Some(end) => {
            idents[idents_len] = (Ident { rule, start: pos, end }, idents.len());
            Some(end)
        }
        None => {
            idents.truncate(idents_len);
            None
        }
    }
}
impl Sample {
    pub fn parse_many(input: &str) -> Result<IdentList<'_>, Error> {
        let mut idents = Vec::with_capacity(500);
        if quick_parse_many(input.as_bytes(), 0, &mut idents).is_none() {
            idents.clear();
            parse_many(input.as_bytes(), 0, &mut idents)?;
        }
        Ok(IdentList::from_idents(idents, input).expect("a nested list"))
    }
}
pub fn parse_pair(input: &[u8], pos: usize, idents: &mut Vec<(Ident, usize)>) -> Result<usize, Error> {
    let idents_len = idents.len();
    let rule = faster_pest::pattern_outer::Rule(Rule::pair as usize);
    idents.push((Ident { rule, start: pos, end: pos }, idents_len));
    match parse_anon_0005(input, pos, idents) {
        Ok(end) => {
            idents[idents_len] = (Ident { rule, start: pos, end }, idents.len());
            Ok(end)
        }
        Err(e) => {
            idents.truncate(idents_len);
            Err(e)
        }
    }
}

pub fn quick_parse_pair(input: &[u8], pos: usize, idents: &mut Vec<(Ident, usize)>) -> Option<usize> {
    let idents_len = idents.len();
    let rule = faster_pest::pattern_outer::Rule(Rule::pair as usize);
    idents.push((Ident { rule, start: pos, end: pos }, idents_len));
    match quick_parse_anon_0005(input, pos, idents) {
        Some(end) => {
            idents[idents_len] = (Ident { rule, start: pos, end }, idents.len());
            Some(end)
        }
        None => {
            idents.truncate(idents_len);
            None
        }
    }
}
impl Sample {
    pub fn parse_pair(input: &str) -> Result<IdentList<'_>, Error> {
        let mut idents = Vec::with_capacity(500);
        if quick_parse_pair(input.as_bytes(), 0, &mut idents).is_none() {
            idents.clear();
            parse_pair(input.as_bytes(), 0, &mut idents)?;
        }
        Ok(IdentList::from_idents(idents, input).expect("a nested list"))
    }
}
pub fn parse_value(input: &[u8], pos: usize, idents: &mut Vec<(Ident, usize)>) -> Result<usize, Error> {
    let idents_len = idents.len();
    let rule = faster_pest::pattern_outer::Rule(Rule::value as usize);
    idents.push((Ident { rule, start: pos, end: pos }, idents_len));
    match parse_anon_0006(input, pos, idents) {
        Ok(end) => {
            idents[idents_len] = (Ident { rule, start: pos, end }, idents.len());
            Ok(end)
        }
        Err(e) => {
            idents.truncate(idents_len);
            Err(e)
        }
    }
}

pub fn quick_parse_value(input: &[u8], pos: usize, idents: &mut Vec<(Ident, usize)>) -> Option<usize> {
    let idents_len = idents.len();
    let rule = faster_pest::pattern_outer::Rule(Rule::value as usize);
    idents.push((Ident { rule, start: pos, end: pos }, idents_len));
    match quick_parse_anon_0006(input, pos, idents) {
        Some(end) => {
            idents[idents_len] = (Ident { rule, start: pos, end }, idents.len());
            Some(end)
        }
        None => {
            idents.truncate(idents_len);
            None
        }
    }
}
impl Sample {
    pub fn parse_value(input: &str) -> Result<IdentList<'_>, Error> {
        let mut idents = Vec::with_capacity(500);
        if quick_parse_value(input.as_bytes(), 0, &mut idents).is_none() {
            idents.clear();
            parse_value(input.as_bytes(), 0, &mut idents)?;
        }
        Ok(IdentList::from_idents(idents, input).expect("a nested list"))
    }
}
// ((c == &32))
pub fn parse_anon_0000(input: &[u8], pos: usize) -> Result<usize, Error> {
    match quick_parse_anon_0000(input, pos) {
        Some(end) => Ok(end),
        None => Err(Error::at(ErrorKind::Expected(r#"(c == &32)"#.to_string()), input.len() - pos, r#"((c == &32))"#)),
    }
}
pub fn quick_parse_anon_0000(input: &[u8], pos: usize) -> Option<usize> {
    match input.get(pos) {
        Some(c) if (c == &32) => Some(pos + 1),
        _ => None,
    }
}
pub fn parse_SOI(input: &[u8], pos: usize) -> Result<usize, Error> {
    Ok(pos)
}
pub fn quick_parse_SOI(input: &[u8], pos: usize) -> Option<usize> {
    Some(pos)
}
pub fn parse_NEWLINE(input: &[u8], pos: usize) -> Result<usize, Error> {
    match quick_parse_NEWLINE(input, pos) {
        Some(end) => Ok(end),
        None => Err(Error::at(ErrorKind::Expected("newline".to_string()), input.len() - pos, "NEWLINE")),
    }
}
pub fn quick_parse_NEWLINE(input: &[u8], pos: usize) -> Option<usize> {
    if input[pos..].starts_with(b"\r\n") {
        Some(pos + 2)
    } else if input[pos..].starts_with(b"\n") || input[pos..].starts_with(b"\r") {
        Some(pos + 1)
    } else {
        None
    }
}
// (pair ~ NEWLINE)
pub fn parse_anon_0007(input: &[u8], pos: usize, idents: &mut Vec<(Ident, usize)>) -> Result<usize, Error> {
    let idents_len = idents.len();
    let mut run = || -> Result<usize, Error> {
        let mut cur = pos;
        cur = parse_pair(input, cur, idents).map_err(|e| e .with_trace(r#"(pair ~ NEWLINE) arm 0"#))?;   while let Some(next) = quick_parse_WHITESPACE(input, cur, idents) { if next == cur { break; } cur = next; }
        cur = parse_NEWLINE(input, cur, ).map_err(|e| e .with_note(r#"following rule pair which ended"#).with_trace(r#"(pair ~ NEWLINE) arm 1"#))?;   while let Some(next) = quick_parse_WHITESPACE(input, cur, idents) { if next == cur { break; } cur = next; }
        Ok(cur)
    };
    let result = run();
    if result.is_err() { idents.truncate(idents_len); }
    result
}
pub fn quick_parse_anon_0007(input: &[u8], pos: usize, idents: &mut Vec<(Ident, usize)>) -> Option<usize> {
    let idents_len = idents.len();
    let mut run = || -> Option<usize> {
        let mut cur = pos;
        cur = quick_parse_pair(input, cur, idents)?;   while let Some(next) = quick_parse_WHITESPACE(input, cur, idents) { if next == cur { break; } cur = next; }
        cur = quick_parse_NEWLINE(input, cur, )?;   while let Some(next) = quick_parse_WHITESPACE(input, cur, idents) { if next == cur { break; } cur = next; }
        Some(cur)
    };
    let result = run();
    if result.is_none() { idents.truncate(idents_len); }
    result
}
// (pair ~ NEWLINE)*
pub fn parse_anon_0008(input: &[u8], pos: usize, idents: &mut Vec<(Ident, usize)>) -> Result<usize, Error> {
    let mut cur = pos;
    //NON-EMPTY cur = parse_anon_0007(input, cur, idents)?;
    //NON-EMPTY  while let Some(next) = quick_parse_WHITESPACE(input, cur, idents) { if next == cur { break; } cur = next; }
    Ok(more_anon_0008(input, cur, idents))
}
pub fn quick_parse_anon_0008(input: &[u8], pos: usize, idents: &mut Vec<(Ident, usize)>) -> Option<usize> {
    let mut cur = pos;
    //NON-EMPTY cur = quick_parse_anon_0007(input, cur, idents)?;
    //NON-EMPTY  while let Some(next) = quick_parse_WHITESPACE(input, cur, idents) { if next == cur { break; } cur = next; }
    Some(more_anon_0008(input, cur, idents))
}
fn more_anon_0008(input: &[u8], pos: usize, idents: &mut Vec<(Ident, usize)>) -> usize {
    let mut cur = pos;
    loop {
        let idents_len = idents.len();
        let mut end = match quick_parse_anon_0007(input, cur, idents) {
            Some(end) => end,
            None => return cur,
        };
         while let Some(next) = quick_parse_WHITESPACE(input, end, idents) { if next == end { break; } end = next; }
        if end == cur {
            idents.truncate(idents_len);
            return cur;
        }
        cur = end;
    }
}
pub fn parse_EOI(input: &[u8], pos: usize) -> Result<usize, Error> {
    if pos == input.len() {
        Ok(pos)
    } else {
        Err(Error::at(ErrorKind::Expected("EOI".to_string()), input.len() - pos, "EOI"))
    }
}
pub fn quick_parse_EOI(input: &[u8], pos: usize) -> Option<usize> {
    if pos == input.len() {
        Some(pos)
    } else {
        None
    }
}
// (SOI ~ (pair ~ NEWLINE)* ~ EOI)
pub fn parse_anon_0001(input: &[u8], pos: usize, idents: &mut Vec<(Ident, usize)>) -> Result<usize, Error> {
    let idents_len = idents.len();
    let mut run = || -> Result<usize, Error> {
        let mut cur = pos;
        cur = parse_SOI(input, cur, ).map_err(|e| e .with_trace(r#"(SOI ~ (pair ~ NEWLINE)* ~ EOI) arm 0"#))?;   while let Some(next) = quick_parse_WHITESPACE(input, cur, idents) { if next == cur { break; } cur = next; }
        cur = parse_anon_0008(input, cur, idents).map_err(|e| e .with_trace(r#"(SOI ~ (pair ~ NEWLINE)* ~ EOI) arm 1"#))?;   while let Some(next) = quick_parse_WHITESPACE(input, cur, idents) { if next == cur { break; } cur = next; }
        cur = parse_EOI(input, cur, ).map_err(|e| e .with_note(r#"following repetition (pair ~ NEWLINE)* which ended"#).with_trace(r#"(SOI ~ (pair ~ NEWLINE)* ~ EOI) arm 2"#))?;   while let Some(next) = quick_parse_WHITESPACE(input, cur, idents) { if next == cur { break; } cur = next; }
        Ok(cur)
    };
    let result = run();
    if result.is_err() { idents.truncate(idents_len); }
    result
}
pub fn quick_parse_anon_0001(input: &[u8], pos: usize, idents: &mut Vec<(Ident, usize)>) -> Option<usize> {
    let idents_len = idents.len();
    let mut run = || -> Option<usize> {
        let mut cur = pos;
        cur = quick_parse_SOI(input, cur, )?;   while let Some(next) = quick_parse_WHITESPACE(input, cur, idents) { if next == cur { break; } cur = next; }
        cur = quick_parse_anon_0008(input, cur, idents)?;   while let Some(next) = quick_parse_WHITESPACE(input, cur, idents) { if next == cur { break; } cur = next; }
        cur = quick_parse_EOI(input, cur, )?;   while let Some(next) = quick_parse_WHITESPACE(input, cur, idents) { if next == cur { break; } cur = next; }
        Some(cur)
    };
    let result = run();
    if result.is_none() { idents.truncate(idents_len); }
    result
}
// "yes"
pub fn parse_anon_0009(input: &[u8], pos: usize) -> Result<usize, Error> {
    match quick_parse_anon_0009(input, pos) {
        Some(end) => Ok(end),
        None => Err(Error::at(ErrorKind::ExpectedValue("yes".to_string()), input.len() - pos, r#""yes""#)),
    }
}
pub fn quick_parse_anon_0009(input: &[u8], pos: usize) -> Option<usize> {
    if input[pos..].starts_with("yes".as_bytes()) {
        Some(pos + "yes".len())
    } else {
        None
    }
}
// "no"
pub fn parse_anon_0010(input: &[u8], pos: usize) -> Result<usize, Error> {
    match quick_parse_anon_0010(input, pos) {
        Some(end) => Ok(end),
        None => Err(Error::at(ErrorKind::ExpectedValue("no".to_string()), input.len() - pos, r#""no""#)),
    }
}
pub fn quick_parse_anon_0010(input: &[u8], pos: usize) -> Option<usize> {
    if input[pos..].starts_with("no".as_bytes()) {
        Some(pos + "no".len())
    } else {
        None
    }
}
// ("yes" | "no")
pub fn parse_anon_0002(input: &[u8], pos: usize, ) -> Result<usize, Error> {
    //IDENTS let idents_len = idents.len();
    if let Some(end) = quick_parse_anon_0009(input, pos, ) { return Ok(end); } //IDENTS idents.truncate(idents_len);
    if let Some(end) = quick_parse_anon_0010(input, pos, ) { return Ok(end); } //IDENTS idents.truncate(idents_len);
    let mut errors = Vec::new();
    if let Err(e) = parse_anon_0009(input, pos, ) { errors.push(e); } //IDENTS idents.truncate(idents_len);
    if let Err(e) = parse_anon_0010(input, pos, ) { errors.push(e); } //IDENTS idents.truncate(idents_len);
    Err(Error::at(ErrorKind::All(errors), input.len() - pos, r#"("yes" | "no")"#))
}
pub fn quick_parse_anon_0002(input: &[u8], pos: usize, ) -> Option<usize> {
    //IDENTS let idents_len = idents.len();
    if let Some(end) = quick_parse_anon_0009(input, pos, ) { return Some(end); } //IDENTS idents.truncate(idents_len);
    if let Some(end) = quick_parse_anon_0010(input, pos, ) { return Some(end); } //IDENTS idents.truncate(idents_len);
    None
}
// (c.is_ascii_alphabetic())
pub fn parse_anon_0011(input: &[u8], pos: usize) -> Result<usize, Error> {
    match quick_parse_anon_0011(input, pos) {
        Some(end) => Ok(end),
        None => Err(Error::at(ErrorKind::Expected(r#"c.is_ascii_alphabetic()"#.to_string()), input.len() - pos, r#"(c.is_ascii_alphabetic())"#)),
    }
}
pub fn quick_parse_anon_0011(input: &[u8], pos: usize) -> Option<usize> {
    match input.get(pos) {
        Some(c) if c.is_ascii_alphabetic() => Some(pos + 1),
        _ => None,
    }
}
// (c.is_ascii_alphabetic())+
pub fn parse_anon_0003(input: &[u8], pos: usize, idents: &mut Vec<(Ident, usize)>) -> Result<usize, Error> {
    let i = input[pos..].iter().position(|c| !(c.is_ascii_alphabetic())).unwrap_or(input.len() - pos);
     if i == 0 {
         return Err(Error::at(ErrorKind::Expected(r#"c.is_ascii_alphabetic()"#.to_string()), input.len() - pos, r#"(c.is_ascii_alphabetic())+"#));
     }
    Ok(pos + i)
}
pub fn quick_parse_anon_0003(input: &[u8], pos: usize, idents: &mut Vec<(Ident, usize)>) -> Option<usize> {
    let i = input[pos..].iter().position(|c| !(c.is_ascii_alphabetic())).unwrap_or(input.len() - pos);
     if i == 0 {
         return None;
     }
    Some(pos + i)
}
// flag+
pub fn parse_anon_0004(input: &[u8], pos: usize, idents: &mut Vec<(Ident, usize)>) -> Result<usize, Error> {
    let mut cur = pos;
     cur = parse_flag(input, cur, idents)?;
      while let Some(next) = quick_parse_WHITESPACE(input, cur, idents) { if next == cur { break; } cur = next; }
    Ok(more_anon_0004(input, cur, idents))
}
pub fn quick_parse_anon_0004(input: &[u8], pos: usize, idents: &mut Vec<(Ident, usize)>) -> Option<usize> {
    let mut cur = pos;
     cur = quick_parse_flag(input, cur, idents)?;
      while let Some(next) = quick_parse_WHITESPACE(input, cur, idents) { if next == cur { break; } cur = next; }
    Some(more_anon_0004(input, cur, idents))
}
fn more_anon_0004(input: &[u8], pos: usize, idents: &mut Vec<(Ident, usize)>) -> usize {
    let mut cur = pos;
    loop {
        let idents_len = idents.len();
        let mut end = match quick_parse_flag(input, cur, idents) {
            Some(end) => end,
            None => return cur,
        };
         while let Some(next) = quick_parse_WHITESPACE(input, end, idents) { if next == end { break; } end = next; }
        if end == cur {
            idents.truncate(idents_len);
            return cur;
        }
        cur = end;
    }
}
// ((c == &61))
pub fn parse_anon_0012(input: &[u8], pos: usize) -> Result<usize, Error> {
    match quick_parse_anon_0012(input, pos) {
        Some(end) => Ok(end),
        None => Err(Error::at(ErrorKind::Expected(r#"(c == &61)"#.to_string()), input.len() - pos, r#"((c == &61))"#)),
    }
}
pub fn quick_parse_anon_0012(input: &[u8], pos: usize) -> Option<usize> {
    match input.get(pos) {
        Some(c) if (c == &61) => Some(pos + 1),
        _ => None,
    }
}
// value?
pub fn parse_anon_0013(input: &[u8], pos: usize, idents: &mut Vec<(Ident, usize)>) -> Result<usize, Error> {
    Ok(quick_parse_anon_0013(input, pos, idents).unwrap_or(pos))
}
pub fn quick_parse_anon_0013(input: &[u8], pos: usize, idents: &mut Vec<(Ident, usize)>) -> Option<usize> {
    let idents_len = idents.len();
    if let Some(end) = quick_parse_value(input, pos, idents) {
        return Some(end);
    }
    idents.truncate(idents_len);
    Some(pos)
}
// ((c == &59))
pub fn parse_anon_0014(input: &[u8], pos: usize) -> Result<usize, Error> {
    match quick_parse_anon_0014(input, pos) {
        Some(end) => Ok(end),
        None => Err(Error::at(ErrorKind::Expected(r#"(c == &59)"#.to_string()), input.len() - pos, r#"((c == &59))"#)),
    }
}
pub fn quick_parse_anon_0014(input: &[u8], pos: usize) -> Option<usize> {
    match input.get(pos) {
        Some(c) if (c == &59) => Some(pos + 1),
        _ => None,
    }
}
// (key ~ ((c == &61)) ~ value? ~ ((c == &59)))
pub fn parse_anon_0005(input: &[u8], pos: usize, idents: &mut Vec<(Ident, usize)>) -> Result<usize, Error> {
    let idents_len = idents.len();
    let mut run = || -> Result<usize, Error> {
        let mut cur = pos;
        cur = parse_key(input, cur, idents).map_err(|e| e .with_trace(r#"(key ~ ((c == &61)) ~ value? ~ ((c == &59))) arm 0"#))?;   while let Some(next) = quick_parse_WHITESPACE(input, cur, idents) { if next == cur { break; } cur = next; }
        cur = parse_anon_0012(input, cur, ).map_err(|e| e .with_note(r#"following rule key which ended"#).with_trace(r#"(key ~ ((c == &61)) ~ value? ~ ((c == &59))) arm 1"#))?;   while let Some(next) = quick_parse_WHITESPACE(input, cur, idents) { if next == cur { break; } cur = next; }
        cur = parse_anon_0013(input, cur, idents).map_err(|e| e .with_trace(r#"(key ~ ((c == &61)) ~ value? ~ ((c == &59))) arm 2"#))?;   while let Some(next) = quick_parse_WHITESPACE(input, cur, idents) { if next == cur { break; } cur = next; }
        cur = parse_anon_0014(input, cur, ).map_err(|e| e .with_trace(r#"(key ~ ((c == &61)) ~ value? ~ ((c == &59))) arm 3"#))?;   while let Some(next) = quick_parse_WHITESPACE(input, cur, idents) { if next == cur { break; } cur = next; }
        Ok(cur)
    };
    let result = run();
    if result.is_err() { idents.truncate(idents_len); }
    result
}
pub fn quick_parse_anon_0005(input: &[u8], pos: usize, idents: &mut Vec<(Ident, usize)>) -> Option<usize> {
    let idents_len = idents.len();
    let mut run = || -> Option<usize> {
        let mut cur = pos;
        cur = quick_parse_key(input, cur, idents)?;   while let Some(next) = quick_parse_WHITESPACE(input, cur, idents) { if next == cur { break; } cur = next; }
        cur = quick_parse_anon_0012(input, cur, )?;   while let Some(next) = quick_parse_WHITESPACE(input, cur, idents) { if next == cur { break; } cur = next; }
        cur = quick_parse_anon_0013(input, cur, idents)?;   while let Some(next) = quick_parse_WHITESPACE(input, cur, idents) { if next == cur { break; } cur = next; }
        cur = quick_parse_anon_0014(input, cur, )?;   while let Some(next) = quick_parse_WHITESPACE(input, cur, idents) { if next == cur { break; } cur = next; }
        Some(cur)
    };
    let result = run();
    if result.is_none() { idents.truncate(idents_len); }
    result
}
// ((!(c == &59) && true))
pub fn parse_anon_0015(input: &[u8], pos: usize) -> Result<usize, Error> {
    match quick_parse_anon_0015(input, pos) {
        Some(end) => Ok(end),
        None => Err(Error::at(ErrorKind::Expected(r#"(!(c == &59) && true)"#.to_string()), input.len() - pos, r#"((!(c == &59) && true))"#)),
    }
}
pub fn quick_parse_anon_0015(input: &[u8], pos: usize) -> Option<usize> {
    match input.get(pos) {
        Some(c) if (!(c == &59) && true) => Some(pos + 1),
        _ => None,
    }
}
// ((!(c == &59) && true))+
pub fn parse_anon_0016(input: &[u8], pos: usize, idents: &mut Vec<(Ident, usize)>) -> Result<usize, Error> {
    let i = input[pos..].iter().position(|c| !((!(c == &59) && true))).unwrap_or(input.len() - pos);
     if i == 0 {
         return Err(Error::at(ErrorKind::Expected(r#"(!(c == &59) && true)"#.to_string()), input.len() - pos, r#"((!(c == &59) && true))+"#));
     }
    Ok(pos + i)
}
pub fn quick_parse_anon_0016(input: &[u8], pos: usize, idents: &mut Vec<(Ident, usize)>) -> Option<usize> {
    let i = input[pos..].iter().position(|c| !((!(c == &59) && true))).unwrap_or(input.len() - pos);
     if i == 0 {
         return None;
     }
    Some(pos + i)
}
// ^"none"
pub fn parse_anon_0017(input: &[u8], pos: usize) -> Result<usize, Error> {
    match quick_parse_anon_0017(input, pos) {
        Some(end) => Ok(end),
        None => Err(Error::at(ErrorKind::ExpectedValue("none".to_string()), input.len() - pos, r#"^"none""#)),
    }
}
pub fn quick_parse_anon_0017(input: &[u8], pos: usize) -> Option<usize> {
    if input.len() - pos < 4 {
        return None;
    }
    for i in 0..4 {
        if input[pos + i] != "none".as_bytes()[i] && input[pos + i] != "NONE".as_bytes()[i] {
            return None;
        }
    }
    Some(pos + 4)
}
// (((!(c == &59) && true))+ | ^"none")
pub fn parse_anon_0006(input: &[u8], pos: usize, idents: &mut Vec<(Ident, usize)>) -> Result<usize, Error> {
    let idents_len = idents.len();
    if let Some(end) = quick_parse_anon_0016(input, pos, idents) { return Ok(end); } idents.truncate(idents_len);
    if let Some(end) = quick_parse_anon_0017(input, pos, ) { return Ok(end); } idents.truncate(idents_len);
    let mut errors = Vec::new();
    if let Err(e) = parse_anon_0016(input, pos, idents) { errors.push(e); } idents.truncate(idents_len);
    if let Err(e) = parse_anon_0017(input, pos, ) { errors.push(e); } idents.truncate(idents_len);
    Err(Error::at(ErrorKind::All(errors), input.len() - pos, r#"(((!(c == &59) && true))+ | ^"none")"#))
}
pub fn quick_parse_anon_0006(input: &[u8], pos: usize, idents: &mut Vec<(Ident, usize)>) -> Option<usize> {
    let idents_len = idents.len();
    if let Some(end) = quick_parse_anon_0016(input, pos, idents) { return Some(end); } idents.truncate(idents_len);
    if let Some(end) = quick_parse_anon_0017(input, pos, ) { return Some(end); } idents.truncate(idents_len);
    None
}

/// What the generator emits for `GRAMMAR`.
const EMITTED: &str = r####"#[allow(non_camel_case_types)]
#[derive(Debug, Copy, Clone, Eq, PartialEq, Hash, Ord, PartialOrd)]
pub enum Rule {
    file,
    flag,
    key,
    many,
    pair,
    value,
}

#[allow(non_snake_case)]
impl Sample {
    pub fn parse(rule: Rule, input: &str) -> Result<faster_pest::IdentList<'_>, faster_pest::Error> {
        match rule {
            Rule::file => Sample::parse_file(input),
            Rule::flag => Sample::parse_flag(input),
            Rule::key => Sample::parse_key(input),
            Rule::many => Sample::parse_many(input),
            Rule::pair => Sample::parse_pair(input),
            Rule::value => Sample::parse_value(input),
        }
    }
}

#[allow(clippy::all, non_snake_case, unused)]
mod Sample_faster_pest {
    use super::*;
    use faster_pest::{Error, ErrorKind, Ident, IdentList};

pub fn parse_WHITESPACE(input: &[u8], pos: usize, idents: &mut Vec<(Ident, usize)>) -> Result<usize, Error> {
    parse_anon_0000(input, pos, )
}

pub fn quick_parse_WHITESPACE(input: &[u8], pos: usize, idents: &mut Vec<(Ident, usize)>) -> Option<usize> {
    quick_parse_anon_0000(input, pos, )
}
impl Sample {
    pub fn parse_WHITESPACE(input: &str) -> Result<IdentList<'_>, Error> {
        let mut idents = Vec::with_capacity(500);
        if quick_parse_WHITESPACE(input.as_bytes(), 0, &mut idents).is_none() {
            idents.clear();
            parse_WHITESPACE(input.as_bytes(), 0, &mut idents)?;
        }
        Ok(IdentList::from_idents(idents, input).expect("a nested list"))
    }
}
pub fn parse_file(input: &[u8], pos: usize, idents: &mut Vec<(Ident, usize)>) -> Result<usize, Error> {
    let idents_len = idents.len();
    let rule = faster_pest::pattern_outer::Rule(Rule::file as usize);
    idents.push((Ident { rule, start: pos, end: pos }, idents_len));
    match parse_anon_0001(input, pos, idents) {
        Ok(end) => {
            idents[idents_len] = (Ident { rule, start: pos, end }, idents.len());
            Ok(end)
        }
        Err(e) => {
            idents.truncate(idents_len);
            Err(e)
        }
    }
}

pub fn quick_parse_file(input: &[u8], pos: usize, idents: &mut Vec<(Ident, usize)>) -> Option<usize> {
    let idents_len = idents.len();
    let rule = faster_pest::pattern_outer::Rule(Rule::file as usize);
    idents.push((Ident { rule, start: pos, end: pos }, idents_len));
    match quick_parse_anon_0001(input, pos, idents) {
        Some(end) => {
            idents[idents_len] = (Ident { rule, start: pos, end }, idents.len());
            Some(end)
        }
        None => {
            idents.truncate(idents_len);
            None
        }
    }
}
impl Sample {
    pub fn parse_file(input: &str) -> Result<IdentList<'_>, Error> {
        let mut idents = Vec::with_capacity(500);
        if quick_parse_file(input.as_bytes(), 0, &mut idents).is_none() {
            idents.clear();
            parse_file(input.as_bytes(), 0, &mut idents)?;
        }
        Ok(IdentList::from_idents(idents, input).expect("a nested list"))
    }
}
pub fn parse_flag(input: &[u8], pos: usize, idents: &mut Vec<(Ident, usize)>) -> Result<usize, Error> {
    let idents_len = idents.len();
    let rule = faster_pest::pattern_outer::Rule(Rule::flag as usize);
    idents.push((Ident { rule, start: pos, end: pos }, idents_len));
    match parse_anon_0002(input, pos, ) {
        Ok(end) => {
            idents[idents_len] = (Ident { rule, start: pos, end }, idents.len());
            Ok(end)
        }
        Err(e) => {
            idents.truncate(idents_len);
            Err(e)
        }
    }
}

pub fn quick_parse_flag(input: &[u8], pos: usize, idents: &mut Vec<(Ident, usize)>) -> Option<usize> {
    let idents_len = idents.len();
    let rule = faster_pest::pattern_outer::Rule(Rule::flag as usize);
    idents.push((Ident { rule, start: pos, end: pos }, idents_len));
    match quick_parse_anon_0002(input, pos, ) {
        Some(end) => {
            idents[idents_len] = (Ident { rule, start: pos, end }, idents.len());
            Some(end)
        }
        None => {
            idents.truncate(idents_len);
            None
        }
    }
}
impl Sample {
    pub fn parse_flag(input: &str) -> Result<IdentList<'_>, Error> {
        let mut idents = Vec::with_capacity(500);
        if quick_parse_flag(input.as_bytes(), 0, &mut idents).is_none() {
            idents.clear();
            parse_flag(input.as_bytes(), 0, &mut idents)?;
        }
        Ok(IdentList::from_idents(idents, input).expect("a nested list"))
    }
}
pub fn parse_key(input: &[u8], pos: usize, idents: &mut Vec<(Ident, usize)>) -> Result<usize, Error> {
    let idents_len = idents.len();
    let rule = faster_pest::pattern_outer::Rule(Rule::key as usize);
    idents.push((Ident { rule, start: pos, end: pos }, idents_len));
    match parse_anon_0003(input, pos, idents) {
        Ok(end) => {
            idents[idents_len] = (Ident { rule, start: pos, end }, idents.len());
            Ok(end)
        }
        Err(e) => {
            idents.truncate(idents_len);
            Err(e)
        }
    }
}

pub fn quick_parse_key(input: &[u8], pos: usize, idents: &mut Vec<(Ident, usize)>) -> Option<usize> {
    let idents_len = idents.len();
    let rule = faster_pest::pattern_outer::Rule(Rule::key as usize);
    idents.push((Ident { rule, start: pos, end: pos }, idents_len));
    match quick_parse_anon_0003(input, pos, idents) {
        Some(end) => {
            idents[idents_len] = (Ident { rule, start: pos, end }, idents.len());
            Some(end)
        }
        None => {
            idents.truncate(idents_len);
            None
        }
    }
}
impl Sample {
    pub fn parse_key(input: &str) -> Result<IdentList<'_>, Error> {
        let mut idents = Vec::with_capacity(500);
        if quick_parse_key(input.as_bytes(), 0, &mut idents).is_none() {
            idents.clear();
            parse_key(input.as_bytes(), 0, &mut idents)?;
        }
        Ok(IdentList::from_idents(idents, input).expect("a nested list"))
    }
}
pub fn parse_many(input: &[u8], pos: usize, idents: &mut Vec<(Ident, usize)>) -> Result<usize, Error> {
    let idents_len = idents.len();
    let rule = faster_pest::pattern_outer::Rule(Rule::many as usize);
    idents.push((Ident { rule, start: pos, end: pos }, idents_len));
    match parse_anon_0004(input, pos, idents) {
        Ok(end) => {
            idents[idents_len] = (Ident { rule, start: pos, end }, idents.len());
            Ok(end)
        }
        Err(e) => {
            idents.truncate(idents_len);
            Err(e)
        }
    }
}

pub fn quick_parse_many(input: &[u8], pos: usize, idents: &mut Vec<(Ident, usize)>) -> Option<usize> {
    let idents_len = idents.len();
    let rule = faster_pest::pattern_outer::Rule(Rule::many as usize);
    idents.push((Ident { rule, start: pos, end: pos }, idents_len));
    match quick_parse_anon_0004(input, pos, idents) {
        Some(end) => {
            idents[idents_len] = (Ident { rule, start: pos, end }, idents.len());
            Some(end)
        }
        None => {
            idents.truncate(idents_len);
            None
        }
    }
}
impl Sample {
    pub fn parse_many(input: &str) -> Result<IdentList<'_>, Error> {
        let mut idents = Vec::with_capacity(500);
        if quick_parse_many(input.as_bytes(), 0, &mut idents).is_none() {
            idents.clear();
            parse_many(input.as_bytes(), 0, &mut idents)?;
        }
        Ok(IdentList::from_idents(idents, input).expect("a nested list"))
    }
}
pub fn parse_pair(input: &[u8], pos: usize, idents: &mut Vec<(Ident, usize)>) -> Result<usize, Error> {
    let idents_len = idents.len();
    let rule = faster_pest::pattern_outer::Rule(Rule::pair as usize);
    idents.push((Ident { rule, start: pos, end: pos }, idents_len));
    match parse_anon_0005(input, pos, idents) {
        Ok(end) => {
            idents[idents_len] = (Ident { rule, start: pos, end }, idents.len());
            Ok(end)
        }
        Err(e) => {
            idents.truncate(idents_len);
            Err(e)
        }
    }
}

pub fn quick_parse_pair(input: &[u8], pos: usize, idents: &mut Vec<(Ident, usize)>) -> Option<usize> {
    let idents_len = idents.len();
    let rule = faster_pest::pattern_outer::Rule(Rule::pair as usize);
    idents.push((Ident { rule, start: pos, end: pos }, idents_len));
    match quick_parse_anon_0005(input, pos, idents) {
        Some(end) => {
            idents[idents_len] = (Ident { rule, start: pos, end }, idents.len());
            Some(end)
        }
        None => {
            idents.truncate(idents_len);
            None
        }
    }
}
impl Sample {
    pub fn parse_pair(input: &str) -> Result<IdentList<'_>, Error> {
        let mut idents = Vec::with_capacity(500);
        if quick_parse_pair(input.as_bytes(), 0, &mut idents).is_none() {
            idents.clear();
            parse_pair(input.as_bytes(), 0, &mut idents)?;
        }
        Ok(IdentList::from_idents(idents, input).expect("a nested list"))
    }
}
pub fn parse_value(input: &[u8], pos: usize, idents: &mut Vec<(Ident, usize)>) -> Result<usize, Error> {
    let idents_len = idents.len();
    let rule = faster_pest::pattern_outer::Rule(Rule::value as usize);
    idents.push((Ident { rule, start: pos, end: pos }, idents_len));
    match parse_anon_0006(input, pos, idents) {
        Ok(end) => {
            idents[idents_len] = (Ident { rule, start: pos, end }, idents.len());
            Ok(end)
        }
        Err(e) => {
            idents.truncate(idents_len);
            Err(e)
        }
    }
}

pub fn quick_parse_value(input: &[u8], pos: usize, idents: &mut Vec<(Ident, usize)>) -> Option<usize> {
    let idents_len = idents.len();
    let rule = faster_pest::pattern_outer::Rule(Rule::value as usize);
    idents.push((Ident { rule, start: pos, end: pos }, idents_len));
    match quick_parse_anon_0006(input, pos, idents) {
        Some(end) => {
            idents[idents_len] = (Ident { rule, start: pos, end }, idents.len());
            Some(end)
        }
        None => {
            idents.truncate(idents_len);
            None
        }
    }
}
impl Sample {
    pub fn parse_value(input: &str) -> Result<IdentList<'_>, Error> {
        let mut idents = Vec::with_capacity(500);
        if quick_parse_value(input.as_bytes(), 0, &mut idents).is_none() {
            idents.clear();
            parse_value(input.as_bytes(), 0, &mut idents)?;
        }
        Ok(IdentList::from_idents(idents, input).expect("a nested list"))
    }
}
// ((c == &32))
pub fn parse_anon_0000(input: &[u8], pos: usize) -> Result<usize, Error> {
    match quick_parse_anon_0000(input, pos) {
        Some(end) => Ok(end),
        None => Err(Error::at(ErrorKind::Expected(r#"(c == &32)"#.to_string()), input.len() - pos, r#"((c == &32))"#)),
    }
}
pub fn quick_parse_anon_0000(input: &[u8], pos: usize) -> Option<usize> {
    match input.get(pos) {
        Some(c) if (c == &32) => Some(pos + 1),
        _ => None,
    }
}
pub fn parse_SOI(input: &[u8], pos: usize) -> Result<usize, Error> {
    Ok(pos)
}
pub fn quick_parse_SOI(input: &[u8], pos: usize) -> Option<usize> {
    Some(pos)
}
pub fn parse_NEWLINE(input: &[u8], pos: usize) -> Result<usize, Error> {
    match quick_parse_NEWLINE(input, pos) {
        Some(end) => Ok(end),
        None => Err(Error::at(ErrorKind::Expected("newline".to_string()), input.len() - pos, "NEWLINE")),
    }
}
pub fn quick_parse_NEWLINE(input: &[u8], pos: usize) -> Option<usize> {
    if input[pos..].starts_with(b"\r\n") {
        Some(pos + 2)
    } else if input[pos..].starts_with(b"\n") || input[pos..].starts_with(b"\r") {
        Some(pos + 1)
    } else {
        None
    }
}
// (pair ~ NEWLINE)
pub fn parse_anon_0007(input: &[u8], pos: usize, idents: &mut Vec<(Ident, usize)>) -> Result<usize, Error> {
    let idents_len = idents.len();
    let mut run = || -> Result<usize, Error> {
        let mut cur = pos;
        cur = parse_pair(input, cur, idents).map_err(|e| e .with_trace(r#"(pair ~ NEWLINE) arm 0"#))?;   while let Some(next) = quick_parse_WHITESPACE(input, cur, idents) { if next == cur { break; } cur = next; }
        cur = parse_NEWLINE(input, cur, ).map_err(|e| e .with_note(r#"following rule pair which ended"#).with_trace(r#"(pair ~ NEWLINE) arm 1"#))?;   while let Some(next) = quick_parse_WHITESPACE(input, cur, idents) { if next == cur { break; } cur = next; }
        Ok(cur)
    };
    let result = run();
    if result.is_err() { idents.truncate(idents_len); }
    result
}
pub fn quick_parse_anon_0007(input: &[u8], pos: usize, idents: &mut Vec<(Ident, usize)>) -> Option<usize> {
    let idents_len = idents.len();
    let mut run = || -> Option<usize> {
        let mut cur = pos;
        cur = quick_parse_pair(input, cur, idents)?;   while let Some(next) = quick_parse_WHITESPACE(input, cur, idents) { if next == cur { break; } cur = next; }
        cur = quick_parse_NEWLINE(input, cur, )?;   while let Some(next) = quick_parse_WHITESPACE(input, cur, idents) { if next == cur { break; } cur = next; }
        Some(cur)
    };
    let result = run();
    if result.is_none() { idents.truncate(idents_len); }
    result
}
// (pair ~ NEWLINE)*
pub fn parse_anon_0008(input: &[u8], pos: usize, idents: &mut Vec<(Ident, usize)>) -> Result<usize, Error> {
    let mut cur = pos;
    //NON-EMPTY cur = parse_anon_0007(input, cur, idents)?;
    //NON-EMPTY  while let Some(next) = quick_parse_WHITESPACE(input, cur, idents) { if next == cur { break; } cur = next; }
    Ok(more_anon_0008(input, cur, idents))
}
pub fn quick_parse_anon_0008(input: &[u8], pos: usize, idents: &mut Vec<(Ident, usize)>) -> Option<usize> {
    let mut cur = pos;
    //NON-EMPTY cur = quick_parse_anon_0007(input, cur, idents)?;
    //NON-EMPTY  while let Some(next) = quick_parse_WHITESPACE(input, cur, idents) { if next == cur { break; } cur = next; }
    Some(more_anon_0008(input, cur, idents))
}
fn more_anon_0008(input: &[u8], pos: usize, idents: &mut Vec<(Ident, usize)>) -> usize {
    let mut cur = pos;
    loop {
        let idents_len = idents.len();
        let mut end = match quick_parse_anon_0007(input, cur, idents) {
            Some(end) => end,
            None => return cur,
        };
         while let Some(next) = quick_parse_WHITESPACE(input, end, idents) { if next == end { break; } end = next; }
        if end == cur {
            idents.truncate(idents_len);
            return cur;
        }
        cur = end;
    }
}
pub fn parse_EOI(input: &[u8], pos: usize) -> Result<usize, Error> {
    if pos == input.len() {
        Ok(pos)
    } else {
        Err(Error::at(ErrorKind::Expected("EOI".to_string()), input.len() - pos, "EOI"))
    }
}
pub fn quick_parse_EOI(input: &[u8], pos: usize) -> Option<usize> {
    if pos == input.len() {
        Some(pos)
    } else {
        None
    }
}
// (SOI ~ (pair ~ NEWLINE)* ~ EOI)
pub fn parse_anon_0001(input: &[u8], pos: usize, idents: &mut Vec<(Ident, usize)>) -> Result<usize, Error> {
    let idents_len = idents.len();
    let mut run = || -> Result<usize, Error> {
        let mut cur = pos;
        cur = parse_SOI(input, cur, ).map_err(|e| e .with_trace(r#"(SOI ~ (pair ~ NEWLINE)* ~ EOI) arm 0"#))?;   while let Some(next) = quick_parse_WHITESPACE(input, cur, idents) { if next == cur { break; } cur = next; }
        cur = parse_anon_0008(input, cur, idents).map_err(|e| e .with_trace(r#"(SOI ~ (pair ~ NEWLINE)* ~ EOI) arm 1"#))?;   while let Some(next) = quick_parse_WHITESPACE(input, cur, idents) { if next == cur { break; } cur = next; }
        cur = parse_EOI(input, cur, ).map_err(|e| e .with_note(r#"following repetition (pair ~ NEWLINE)* which ended"#).with_trace(r#"(SOI ~ (pair ~ NEWLINE)* ~ EOI) arm 2"#))?;   while let Some(next) = quick_parse_WHITESPACE(input, cur, idents) { if next == cur { break; } cur = next; }
        Ok(cur)
    };
    let result = run();
    if result.is_err() { idents.truncate(idents_len); }
    result
}
pub fn quick_parse_anon_0001(input: &[u8], pos: usize, idents: &mut Vec<(Ident, usize)>) -> Option<usize> {
    let idents_len = idents.len();
    let mut run = || -> Option<usize> {
        let mut cur = pos;
        cur = quick_parse_SOI(input, cur, )?;   while let Some(next) = quick_parse_WHITESPACE(input, cur, idents) { if next == cur { break; } cur = next; }
        cur = quick_parse_anon_0008(input, cur, idents)?;   while let Some(next) = quick_parse_WHITESPACE(input, cur, idents) { if next == cur { break; } cur = next; }
        cur = quick_parse_EOI(input, cur, )?;   while let Some(next) = quick_parse_WHITESPACE(input, cur, idents) { if next == cur { break; } cur = next; }
        Some(cur)
    };
    let result = run();
    if result.is_none() { idents.truncate(idents_len); }
    result
}
// "yes"
pub fn parse_anon_0009(input: &[u8], pos: usize) -> Result<usize, Error> {
    match quick_parse_anon_0009(input, pos) {
        Some(end) => Ok(end),
        None => Err(Error::at(ErrorKind::ExpectedValue("yes".to_string()), input.len() - pos, r#""yes""#)),
    }
}
pub fn quick_parse_anon_0009(input: &[u8], pos: usize) -> Option<usize> {
    if input[pos..].starts_with("yes".as_bytes()) {
        Some(pos + "yes".len())
    } else {
        None
    }
}
// "no"
pub fn parse_anon_0010(input: &[u8], pos: usize) -> Result<usize, Error> {
    match quick_parse_anon_0010(input, pos) {
        Some(end) => Ok(end),
        None => Err(Error::at(ErrorKind::ExpectedValue("no".to_string()), input.len() - pos, r#""no""#)),
    }
}
pub fn quick_parse_anon_0010(input: &[u8], pos: usize) -> Option<usize> {
    if input[pos..].starts_with("no".as_bytes()) {
        Some(pos + "no".len())
    } else {
        None
    }
}
// ("yes" | "no")
pub fn parse_anon_0002(input: &[u8], pos: usize, ) -> Result<usize, Error> {
    //IDENTS let idents_len = idents.len();
    if let Some(end) = quick_parse_anon_0009(input, pos, ) { return Ok(end); } //IDENTS idents.truncate(idents_len);
    if let Some(end) = quick_parse_anon_0010(input, pos, ) { return Ok(end); } //IDENTS idents.truncate(idents_len);
    let mut errors = Vec::new();
    if let Err(e) = parse_anon_0009(input, pos, ) { errors.push(e); } //IDENTS idents.truncate(idents_len);
    if let Err(e) = parse_anon_0010(input, pos, ) { errors.push(e); } //IDENTS idents.truncate(idents_len);
    Err(Error::at(ErrorKind::All(errors), input.len() - pos, r#"("yes" | "no")"#))
}
pub fn quick_parse_anon_0002(input: &[u8], pos: usize, ) -> Option<usize> {
    //IDENTS let idents_len = idents.len();
    if let Some(end) = quick_parse_anon_0009(input, pos, ) { return Some(end); } //IDENTS idents.truncate(idents_len);
    if let Some(end) = quick_parse_anon_0010(input, pos, ) { return Some(end); } //IDENTS idents.truncate(idents_len);
    None
}
// (c.is_ascii_alphabetic())
pub fn parse_anon_0011(input: &[u8], pos: usize) -> Result<usize, Error> {
    match quick_parse_anon_0011(input, pos) {
        Some(end) => Ok(end),
        None => Err(Error::at(ErrorKind::Expected(r#"c.is_ascii_alphabetic()"#.to_string()), input.len() - pos, r#"(c.is_ascii_alphabetic())"#)),
    }
}
pub fn quick_parse_anon_0011(input: &[u8], pos: usize) -> Option<usize> {
    match input.get(pos) {
        Some(c) if c.is_ascii_alphabetic() => Some(pos + 1),
        _ => None,
    }
}
// (c.is_ascii_alphabetic())+
pub fn parse_anon_0003(input: &[u8], pos: usize, idents: &mut Vec<(Ident, usize)>) -> Result<usize, Error> {
    let i = input[pos..].iter().position(|c| !(c.is_ascii_alphabetic())).unwrap_or(input.len() - pos);
     if i == 0 {
         return Err(Error::at(ErrorKind::Expected(r#"c.is_ascii_alphabetic()"#.to_string()), input.len() - pos, r#"(c.is_ascii_alphabetic())+"#));
     }
    Ok(pos + i)
}
pub fn quick_parse_anon_0003(input: &[u8], pos: usize, idents: &mut Vec<(Ident, usize)>) -> Option<usize> {
    let i = input[pos..].iter().position(|c| !(c.is_ascii_alphabetic())).unwrap_or(input.len() - pos);
     if i == 0 {
         return None;
     }
    Some(pos + i)
}
// flag+
pub fn parse_anon_0004(input: &[u8], pos: usize, idents: &mut Vec<(Ident, usize)>) -> Result<usize, Error> {
    let mut cur = pos;
     cur = parse_flag(input, cur, idents)?;
      while let Some(next) = quick_parse_WHITESPACE(input, cur, idents) { if next == cur { break; } cur = next; }
    Ok(more_anon_0004(input, cur, idents))
}
pub fn quick_parse_anon_0004(input: &[u8], pos: usize, idents: &mut Vec<(Ident, usize)>) -> Option<usize> {
    let mut cur = pos;
     cur = quick_parse_flag(input, cur, idents)?;
      while let Some(next) = quick_parse_WHITESPACE(input, cur, idents) { if next == cur { break; } cur = next; }
    Some(more_anon_0004(input, cur, idents))
}
fn more_anon_0004(input: &[u8], pos: usize, idents: &mut Vec<(Ident, usize)>) -> usize {
    let mut cur = pos;
    loop {
        let idents_len = idents.len();
        let mut end = match quick_parse_flag(input, cur, idents) {
            Some(end) => end,
            None => return cur,
        };
         while let Some(next) = quick_parse_WHITESPACE(input, end, idents) { if next == end { break; } end = next; }
        if end == cur {
            idents.truncate(idents_len);
            return cur;
        }
        cur = end;
    }
}
// ((c == &61))
pub fn parse_anon_0012(input: &[u8], pos: usize) -> Result<usize, Error> {
    match quick_parse_anon_0012(input, pos) {
        Some(end) => Ok(end),
        None => Err(Error::at(ErrorKind::Expected(r#"(c == &61)"#.to_string()), input.len() - pos, r#"((c == &61))"#)),
    }
}
pub fn quick_parse_anon_0012(input: &[u8], pos: usize) -> Option<usize> {
    match input.get(pos) {
        Some(c) if (c == &61) => Some(pos + 1),
        _ => None,
    }
}
// value?
pub fn parse_anon_0013(input: &[u8], pos: usize, idents: &mut Vec<(Ident, usize)>) -> Result<usize, Error> {
    Ok(quick_parse_anon_0013(input, pos, idents).unwrap_or(pos))
}
pub fn quick_parse_anon_0013(input: &[u8], pos: usize, idents: &mut Vec<(Ident, usize)>) -> Option<usize> {
    let idents_len = idents.len();
    if let Some(end) = quick_parse_value(input, pos, idents) {
        return Some(end);
    }
    idents.truncate(idents_len);
    Some(pos)
}
// ((c == &59))
pub fn parse_anon_0014(input: &[u8], pos: usize) -> Result<usize, Error> {
    match quick_parse_anon_0014(input, pos) {
        Some(end) => Ok(end),
        None => Err(Error::at(ErrorKind::Expected(r#"(c == &59)"#.to_string()), input.len() - pos, r#"((c == &59))"#)),
    }
}
pub fn quick_parse_anon_0014(input: &[u8], pos: usize) -> Option<usize> {
    match input.get(pos) {
        Some(c) if (c == &59) => Some(pos + 1),
        _ => None,
    }
}
// (key ~ ((c == &61)) ~ value? ~ ((c == &59)))
pub fn parse_anon_0005(input: &[u8], pos: usize, idents: &mut Vec<(Ident, usize)>) -> Result<usize, Error> {
    let idents_len = idents.len();
    let mut run = || -> Result<usize, Error> {
        let mut cur = pos;
        cur = parse_key(input, cur, idents).map_err(|e| e .with_trace(r#"(key ~ ((c == &61)) ~ value? ~ ((c == &59))) arm 0"#))?;   while let Some(next) = quick_parse_WHITESPACE(input, cur, idents) { if next == cur { break; } cur = next; }
        cur = parse_anon_0012(input, cur, ).map_err(|e| e .with_note(r#"following rule key which ended"#).with_trace(r#"(key ~ ((c == &61)) ~ value? ~ ((c == &59))) arm 1"#))?;   while let Some(next) = quick_parse_WHITESPACE(input, cur, idents) { if next == cur { break; } cur = next; }
        cur = parse_anon_0013(input, cur, idents).map_err(|e| e .with_trace(r#"(key ~ ((c == &61)) ~ value? ~ ((c == &59))) arm 2"#))?;   while let Some(next) = quick_parse_WHITESPACE(input, cur, idents) { if next == cur { break; } cur = next; }
        cur = parse_anon_0014(input, cur, ).map_err(|e| e .with_trace(r#"(key ~ ((c == &61)) ~ value? ~ ((c == &59))) arm 3"#))?;   while let Some(next) = quick_parse_WHITESPACE(input, cur, idents) { if next == cur { break; } cur = next; }
        Ok(cur)
    };
    let result = run();
    if result.is_err() { idents.truncate(idents_len); }
    result
}
pub fn quick_parse_anon_0005(input: &[u8], pos: usize, idents: &mut Vec<(Ident, usize)>) -> Option<usize> {
    let idents_len = idents.len();
    let mut run = || -> Option<usize> {
        let mut cur = pos;
        cur = quick_parse_key(input, cur, idents)?;   while let Some(next) = quick_parse_WHITESPACE(input, cur, idents) { if next == cur { break; } cur = next; }
        cur = quick_parse_anon_0012(input, cur, )?;   while let Some(next) = quick_parse_WHITESPACE(input, cur, idents) { if next == cur { break; } cur = next; }
        cur = quick_parse_anon_0013(input, cur, idents)?;   while let Some(next) = quick_parse_WHITESPACE(input, cur, idents) { if next == cur { break; } cur = next; }
        cur = quick_parse_anon_0014(input, cur, )?;   while let Some(next) = quick_parse_WHITESPACE(input, cur, idents) { if next == cur { break; } cur = next; }
        Some(cur)
    };
    let result = run();
    if result.is_none() { idents.truncate(idents_len); }
    result
}
// ((!(c == &59) && true))
pub fn parse_anon_0015(input: &[u8], pos: usize) -> Result<usize, Error> {
    match quick_parse_anon_0015(input, pos) {
        Some(end) => Ok(end),
        None => Err(Error::at(ErrorKind::Expected(r#"(!(c == &59) && true)"#.to_string()), input.len() - pos, r#"((!(c == &59) && true))"#)),
    }
}
pub fn quick_parse_anon_0015(input: &[u8], pos: usize) -> Option<usize> {
    match input.get(pos) {
        Some(c) if (!(c == &59) && true) => Some(pos + 1),
        _ => None,
    }
}
// ((!(c == &59) && true))+
pub fn parse_anon_0016(input: &[u8], pos: usize, idents: &mut Vec<(Ident, usize)>) -> Result<usize, Error> {
    let i = input[pos..].iter().position(|c| !((!(c == &59) && true))).unwrap_or(input.len() - pos);
     if i == 0 {
         return Err(Error::at(ErrorKind::Expected(r#"(!(c == &59) && true)"#.to_string()), input.len() - pos, r#"((!(c == &59) && true))+"#));
     }
    Ok(pos + i)
}
pub fn quick_parse_anon_0016(input: &[u8], pos: usize, idents: &mut Vec<(Ident, usize)>) -> Option<usize> {
    let i = input[pos..].iter().position(|c| !((!(c == &59) && true))).unwrap_or(input.len() - pos);
     if i == 0 {
         return None;
     }
    Some(pos + i)
}
// ^"none"
pub fn parse_anon_0017(input: &[u8], pos: usize) -> Result<usize, Error> {
    match quick_parse_anon_0017(input, pos) {
        Some(end) => Ok(end),
        None => Err(Error::at(ErrorKind::ExpectedValue("none".to_string()), input.len() - pos, r#"^"none""#)),
    }
}
pub fn quick_parse_anon_0017(input: &[u8], pos: usize) -> Option<usize> {
    if input.len() - pos < 4 {
        return None;
    }
    for i in 0..4 {
        if input[pos + i] != "none".as_bytes()[i] && input[pos + i] != "NONE".as_bytes()[i] {
            return None;
        }
    }
    Some(pos + 4)
}
// (((!(c == &59) && true))+ | ^"none")
pub fn parse_anon_0006(input: &[u8], pos: usize, idents: &mut Vec<(Ident, usize)>) -> Result<usize, Error> {
    let idents_len = idents.len();
    if let Some(end) = quick_parse_anon_0016(input, pos, idents) { return Ok(end); } idents.truncate(idents_len);
    if let Some(end) = quick_parse_anon_0017(input, pos, ) { return Ok(end); } idents.truncate(idents_len);
    let mut errors = Vec::new();
    if let Err(e) = parse_anon_0016(input, pos, idents) { errors.push(e); } idents.truncate(idents_len);
    if let Err(e) = parse_anon_0017(input, pos, ) { errors.push(e); } idents.truncate(idents_len);
    Err(Error::at(ErrorKind::All(errors), input.len() - pos, r#"(((!(c == &59) && true))+ | ^"none")"#))
}
pub fn quick_parse_anon_0006(input: &[u8], pos: usize, idents: &mut Vec<(Ident, usize)>) -> Option<usize> {
    let idents_len = idents.len();
    if let Some(end) = quick_parse_anon_0016(input, pos, idents) { return Some(end); } idents.truncate(idents_len);
    if let Some(end) = quick_parse_anon_0017(input, pos, ) { return Some(end); } idents.truncate(idents_len);
    None
}

}
"####;

fn rules() -> Vec<pest_meta::optimizer::OptimizedRule> {
    get_all_rules(vec![pest_meta::parse_and_optimize(GRAMMAR).expect("a grammar").1])
}

fn cause(kind: &ErrorKind) -> String {
    match kind {
        ErrorKind::All(errors) => {
            let inner: Vec<String> = errors.iter().map(|e| cause(e.kind())).collect();
            format!("all[{}]", inner.join(","))
        }
        other => other.describe(),
    }
}

/// The emitted parser names the rules that are not silent, in the order of
/// the rule table; the matchers name every rule.
fn emitted_rule(grammar: &Grammar, rule: usize) -> usize {
    (0..rule).filter(|k| !grammar.rule(*k).silent).count()
}

fn agree(grammar: &Grammar, name: &str, rule: Rule, input: &str) {
    let matched = parse_RuleVariant(grammar, grammar.find(name).expect("the rule"), input);
    let emitted = Sample::parse(rule, input);
    match (matched, emitted) {
        (Ok(a), Ok(b)) => {
            assert_eq!(a.len(), b.len(), "on {input:?}");
            for i in 0..a.len() {
                let (x, end_x) = a.entry(i);
                let (y, end_y) = b.entry(i);
                assert_eq!(emitted_rule(grammar, x.rule.0), y.rule.0, "on {input:?}");
                assert_eq!((x.start, x.end, end_x), (y.start, y.end, end_y), "on {input:?}");
            }
        }
        (Err(a), Err(b)) => {
            assert_eq!(cause(a.kind()), cause(b.kind()), "on {input:?}");
            assert_eq!(a.remaining_bytes(), b.remaining_bytes(), "on {input:?}");
            assert_eq!(a.note(), b.note(), "on {input:?}");
            assert_eq!(a.trace(), b.trace(), "on {input:?}");
        }
        (a, b) => panic!("on {input:?}: {:?} against {:?}", a.is_ok(), b.is_ok()),
    }
}

#[test]
fn the_parser_that_is_compiled_here_is_the_one_that_is_emitted() {
    let text = gen::<RustGenerator>("Sample".to_string(), &rules()).expect("supported");
    assert_eq!(text, EMITTED);
}

#[test]
fn the_emitted_parser_agrees_with_the_matchers() {
    let grammar = compile_rules(&rules()).expect("supported");
    for input in [
        "",
        "a=b;\n",
        "a=b;\nc=none;\r\n",
        "key = some value ;\nother=NoNe;\n",
        "a=;\n",
        "a =  ;\n",
        "a=b;",
        "a=b\n",
        "=b;\n",
        "a;\n",
        "a=b;\n\n",
        "a=b;\nc",
        "a=b;\nc=",
        "a=b;\n;",
        "1=b;\n",
        "a=nonex;\n",
        "a=\u{e9};\nb=\u{e9}",
        "  a=b;\n",
        "a=b; \n",
    ] {
        agree(&grammar, "file", Rule::file, input);
    }
}

#[test]
fn the_emitted_choice_and_repetition_agree_with_the_matchers() {
    let grammar = compile_rules(&rules()).expect("supported");
    for input in ["yes", "no", "yesno", "maybe", "", "ye", "n", " yes"] {
        agree(&grammar, "flag", Rule::flag, input);
    }
    for input in [
        "yes",
        "yes no",
        "yes no  yes   ",
        "yesno",
        "yes  maybe",
        "no yes!",
        "",
        " yes",
        "maybe",
        "yes ",
    ] {
        agree(&grammar, "many", Rule::many, input);
    }
}

#[test]
fn the_emitted_one_or_more_skips_whitespace_after_every_occurrence() {
    let list = Sample::parse_many("yes no  yes").expect("matches");
    let root = list.root().expect("a root");
    assert_eq!(root.as_str(), Some("yes no  yes"));
    assert_eq!(root.children_count(), 3);
    let mut flags = root.children();
    assert_eq!(flags.next().expect("a flag").as_str(), Some("yes"));
    assert_eq!(flags.next().expect("a flag").as_str(), Some("no"));
    assert_eq!(flags.next().expect("a flag").as_str(), Some("yes"));
    assert!(flags.next().is_none());
}

#[test]
fn the_emitted_parser_builds_the_tree() {
    let list = Sample::parse_file("k = v;\nx=none;\n").expect("matches");
    let root = list.root().expect("a root");
    assert_eq!(root.as_str(), Some("k = v;\nx=none;\n"));
    let mut pairs = root.children();
    let first = pairs.next().expect("a pair");
    assert_eq!(first.as_str(), Some("k = v;"));
    let mut parts = first.children();
    assert_eq!(parts.next().expect("the key").as_str(), Some("k"));
    assert_eq!(parts.next().expect("the value").as_str(), Some("v"));
    assert!(parts.next().is_none());
    let second = pairs.next().expect("a pair");
    assert_eq!(second.children().join_all(), "xnone");
    assert!(pairs.next().is_none());
}
