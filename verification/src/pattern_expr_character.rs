//! Matching one byte against a test.
use vstd::prelude::*;
use crate::condition::Condition;
use crate::diagnosis::{failed, full_answer, label, remaining_at};
use crate::error::{Error, ErrorKind, KindModel};
use crate::expr::ExprModel;
use crate::generator::{condition_code, condition_text};
use crate::pattern_outer::quick_answer;
use crate::rust_generator::RustGenerator;
use crate::semantics::character_at;
use crate::text::concat3;

verus! {

/// The quick procedure of a byte test: one byte further where the byte
/// at `pos` passes the test, nothing where it fails or no byte is left.
pub fn quick_parse_expr_id(condition: &Condition, input: &[u8], pos: usize) -> (r: Option<usize>)
    ensures
        quick_answer(character_at(*condition, input@, pos as nat), r),
{
    if pos < input.len() {
        if condition.test(input[pos]) {
            Some(pos + 1)
        } else {
            None
        }
    } else {
        None
    }
}


/// The full procedure of a byte test: as the quick one, with the error of
/// an absent byte, which names the test, where it does not match.
pub fn parse_expr_id(condition: &Condition, input: &[u8], pos: usize) -> (r: Result<usize, Error>)
    ensures
        full_answer(
            character_at(*condition, input@, pos as nat),
            failed(
                KindModel::Expected(condition_text::<RustGenerator>(*condition)),
                input@,
                pos as nat,
                label(ExprModel::CharacterCondition(*condition)),
            ),
            r,
        ),
{
    match quick_parse_expr_id(condition, input, pos) {
        Some(end) => Ok(end),
        None => {
            let test = condition_code::<RustGenerator>(condition);
            Err(
                Error::at(
                    ErrorKind::expected(test.as_str()),
                    remaining_at(input, pos),
                    concat3("(", test.as_str(), ")").as_str(),
                ),
            )
        },
    }
}

} // verus!
