//! Matching a run of bytes against a test, in one scan.
use vstd::prelude::*;
use vstd::string::*;
use crate::condition::Condition;
use crate::diagnosis::{failed, full_answer, label, remaining_at};
use crate::error::{Error, ErrorKind, KindModel};
use crate::expr::ExprModel;
use crate::generator::{condition_code, condition_text};
use crate::pattern_outer::quick_answer;
use crate::rust_generator::RustGenerator;
use crate::semantics::{run_at, scan};
use crate::text::concat3;

verus! {

/// The scan stays inside the input.
pub proof fn lemma_scan_bound(c: Condition, input: Seq<u8>, pos: nat)
    requires
        pos <= input.len(),
    ensures
        pos + scan(c, input, pos) <= input.len(),
    decreases input.len() - pos,
{
    if pos < input.len() && c.accepts(input[pos as int]) {
        lemma_scan_bound(c, input, pos + 1);
    }
}

/// The position of the first byte from `pos` on that fails the test, or
/// the end of the input.
pub fn scan_end(condition: &Condition, input: &[u8], pos: usize) -> (r: usize)
    requires
        pos <= input.len(),
    ensures
        r == pos + scan(*condition, input@, pos as nat),
        r <= input.len(),
{
    let mut i: usize = pos;
    while i < input.len() && condition.test(input[i])
        invariant
            pos <= i <= input.len(),
            pos + scan(*condition, input@, pos as nat) == i + scan(*condition, input@, i as nat),
        decreases input.len() - i,
    {
        i += 1;
    }
    i
}

/// The quick procedure of a repeated byte test.
pub fn quick_parse_expr_id(
    condition: &Condition,
    empty_accepted: bool,
    input: &[u8],
    pos: usize,
) -> (r: Option<usize>)
    ensures
        quick_answer(run_at(*condition, empty_accepted, input@, pos as nat), r),
{
    if pos > input.len() {
        return None;
    }
    let i = scan_end(condition, input, pos);
    if !empty_accepted && i == pos {
        return None;
    }
    Some(i)
}


/// The full procedure of a repeated byte test: as the quick one, with the
/// error of an absent byte, which names the test, where no byte passes
/// and one is required.
pub fn parse_expr_id(
    condition: &Condition,
    empty_accepted: bool,
    input: &[u8],
    pos: usize,
) -> (r: Result<usize, Error>)
    ensures
        full_answer(
            run_at(*condition, empty_accepted, input@, pos as nat),
            failed(
                KindModel::Expected(condition_text::<RustGenerator>(*condition)),
                input@,
                pos as nat,
                label(
                    ExprModel::Rep(
                        Box::new(ExprModel::CharacterCondition(*condition)),
                        empty_accepted,
                    ),
                ),
            ),
            r,
        ),
{
    match quick_parse_expr_id(condition, empty_accepted, input, pos) {
        Some(end) => Ok(end),
        None => {
            let test = condition_code::<RustGenerator>(condition);
            let mut root = concat3("(", test.as_str(), ")");
            assert(root@ == label(ExprModel::CharacterCondition(*condition)));
            if empty_accepted {
                root.append("*");
            } else {
                root.append("+");
            }
            Err(
                Error::at(
                    ErrorKind::expected(test.as_str()),
                    remaining_at(input, pos),
                    root.as_str(),
                ),
            )
        },
    }
}

} // verus!
