//! Matching a literal without regard to the case of ASCII letters.
use vstd::prelude::*;
use crate::diagnosis::{failed, full_answer, label, remaining_at};
use crate::error::{Error, ErrorKind, KindModel};
use crate::expr::ExprModel;
use crate::pattern_outer::quick_answer;
use crate::raw::bytes_of;
use crate::semantics::{flipped, insens_at};
use crate::text::{concat2, debug_string};

verus! {

/// The byte with the case of an ASCII letter inverted.
pub fn flip(c: u8) -> (r: u8)
    ensures
        r == flipped(c),
{
    if 65 <= c && c <= 90 {
        c + 32
    } else if 97 <= c && c <= 122 {
        c - 32
    } else {
        c
    }
}

/// Whether the literal stands in the input at the position, up to the
/// case of ASCII letters.
pub fn starts_at_insens(input: &[u8], pos: usize, literal: &[u8]) -> (r: bool)
    ensures
        r == (insens_at(input@, pos as nat, literal@) is Some),
{
    if pos > input.len() || literal.len() > input.len() - pos {
        return false;
    }
    let mut i: usize = 0;
    while i < literal.len()
        invariant
            i <= literal.len(),
            pos + literal@.len() <= input@.len() <= usize::MAX,
            forall|j: int|
                0 <= j < i ==> (#[trigger] input@[pos as int + j] == literal@[j] || input@[pos as int
                    + j] == flipped(literal@[j])),
        decreases literal.len() - i,
    {
        if input[pos + i] != literal[i] && input[pos + i] != flip(literal[i]) {
            assert(!(input@[pos as int + i as int] == literal@[i as int] || input@[pos as int
                + i as int] == flipped(literal@[i as int])));
            return false;
        }
        i += 1;
    }
    true
}

/// The quick procedure of a case-insensitive literal.
pub fn quick_parse_expr_id(value: &str, input: &[u8], pos: usize) -> (r: Option<usize>)
    ensures
        quick_answer(insens_at(input@, pos as nat, bytes_of(value@)), r),
{
    let literal = value.as_bytes();
    let n = input.len();
    if starts_at_insens(input, pos, literal) {
        Some(pos + literal.len())
    } else {
        None
    }
}


/// The full procedure of a case-insensitive literal: as the quick one,
/// with the error of an absent literal where it does not match.
pub fn parse_expr_id(value: &str, input: &[u8], pos: usize) -> (r: Result<usize, Error>)
    ensures
        full_answer(
            insens_at(input@, pos as nat, bytes_of(value@)),
            failed(
                KindModel::ExpectedValue(value@),
                input@,
                pos as nat,
                label(ExprModel::Insens(value@)),
            ),
            r,
        ),
{
    match quick_parse_expr_id(value, input, pos) {
        Some(end) => Ok(end),
        None => Err(
            Error::at(
                ErrorKind::expected_value(value),
                remaining_at(input, pos),
                concat2("^", debug_string(value).as_str()).as_str(),
            ),
        ),
    }
}

} // verus!
