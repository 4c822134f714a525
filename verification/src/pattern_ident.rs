//! Matching the builtin identifiers.
use vstd::prelude::*;
use crate::diagnosis::{builtin_failure, full_answer, remaining_at};
use crate::error::{Error, ErrorKind};
use crate::pattern_outer::quick_answer;
use crate::semantics::{builtin_at, builtin_of, Builtin};
use crate::text::str_eq;

verus! {

impl Builtin {
    /// The builtin that an identifier names, if it names one.
    pub fn from_name(name: &str) -> (r: Option<Builtin>)
        ensures
            r == builtin_of(name@),
    {
        if str_eq(name, "SOI") {
            Some(Builtin::Soi)
        } else if str_eq(name, "EOI") {
            Some(Builtin::Eoi)
        } else if str_eq(name, "NEWLINE") {
            Some(Builtin::Newline)
        } else {
            None
        }
    }
}

/// The quick procedure of a builtin.
pub fn quick_parse_expr_id(builtin: Builtin, input: &[u8], pos: usize) -> (r: Option<usize>)
    ensures
        quick_answer(builtin_at(builtin, input@, pos as nat), r),
{
    if pos > input.len() {
        return None;
    }
    match builtin {
        Builtin::Soi => Some(pos),
        Builtin::Eoi => if pos == input.len() {
            Some(pos)
        } else {
            None
        },
        Builtin::Newline => {
            if input.len() - pos >= 2 && input[pos] == 13 && input[pos + 1] == 10 {
                Some(pos + 2)
            } else if pos < input.len() && (input[pos] == 10 || input[pos] == 13) {
                Some(pos + 1)
            } else {
                None
            }
        },
    }
}


/// The full procedure of a builtin: as the quick one, with the error of
/// what the builtin stands for where it does not match.
pub fn parse_expr_id(builtin: Builtin, input: &[u8], pos: usize) -> (r: Result<usize, Error>)
    ensures
        full_answer(
            builtin_at(builtin, input@, pos as nat),
            builtin_failure(builtin, input@, pos as nat),
            r,
        ),
{
    match quick_parse_expr_id(builtin, input, pos) {
        Some(end) => Ok(end),
        None => match builtin {
            Builtin::Soi => Err(
                Error::at(ErrorKind::expected("SOI"), remaining_at(input, pos), "SOI"),
            ),
            Builtin::Eoi => Err(
                Error::at(ErrorKind::expected("EOI"), remaining_at(input, pos), "EOI"),
            ),
            Builtin::Newline => Err(
                Error::at(ErrorKind::expected("newline"), remaining_at(input, pos), "NEWLINE"),
            ),
        },
    }
}

} // verus!
