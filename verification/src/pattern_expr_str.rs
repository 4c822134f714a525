//! Matching an exact literal.
use vstd::prelude::*;
use crate::diagnosis::{failed, full_answer, label, remaining_at};
use crate::error::{Error, ErrorKind, KindModel};
use crate::expr::ExprModel;
use crate::pattern_outer::quick_answer;
use crate::raw::bytes_of;
use crate::semantics::literal_at;
use crate::text::debug_string;

verus! {

/// Whether the literal stands in the input at the position.
pub fn starts_at(input: &[u8], pos: usize, literal: &[u8]) -> (r: bool)
    ensures
        r == (pos + literal@.len() <= input@.len() && input@.subrange(
            pos as int,
            pos + literal@.len(),
        ) == literal@),
{
    if pos > input.len() || literal.len() > input.len() - pos {
        return false;
    }
    let mut i: usize = 0;
    while i < literal.len()
        invariant
            i <= literal.len(),
            pos + literal@.len() <= input@.len() <= usize::MAX,
            forall|j: int| 0 <= j < i ==> input@[pos + j] == literal@[j],
        decreases literal.len() - i,
    {
        if input[pos + i] != literal[i] {
            assert(input@.subrange(pos as int, pos + literal@.len())[i as int] != literal@[i as int]);
            return false;
        }
        i += 1;
    }
    assert(input@.subrange(pos as int, pos + literal@.len()) =~= literal@);
    true
}

/// The quick procedure of a literal: the position after the literal where
/// it stands at `pos`, nothing where it does not.
pub fn quick_parse_expr_id(value: &str, input: &[u8], pos: usize) -> (r: Option<usize>)
    ensures
        quick_answer(literal_at(input@, pos as nat, bytes_of(value@)), r),
{
    let literal = value.as_bytes();
    let n = input.len();
    if starts_at(input, pos, literal) {
        Some(pos + literal.len())
    } else {
        None
    }
}


/// The full procedure of a literal: as the quick one, with the error of
/// an absent literal where it does not match.
pub fn parse_expr_id(value: &str, input: &[u8], pos: usize) -> (r: Result<usize, Error>)
    ensures
        full_answer(
            literal_at(input@, pos as nat, bytes_of(value@)),
            failed(
                KindModel::ExpectedValue(value@),
                input@,
                pos as nat,
                label(ExprModel::Str(value@)),
            ),
            r,
        ),
{
    match quick_parse_expr_id(value, input, pos) {
        Some(end) => Ok(end),
        None => Err(
            Error::at(
                ErrorKind::expected_value(value),
                remaining_at(input, pos),
                debug_string(value).as_str(),
            ),
        ),
    }
}

} // verus!
