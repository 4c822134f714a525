//! The grammar expressions that the optimizer consumes, as `pest_meta`
//! produces them.
use vstd::prelude::*;
use pest_meta::optimizer::OptimizedExpr;

verus! {

/// `pest_meta::optimizer::OptimizedExpr`, with the variants that
/// `pest_meta` declares.
#[verifier::external_type_specification]
pub struct ExOptimizedExpr(OptimizedExpr);

/// The bytes that encode a text.
pub open spec fn bytes_of(s: Seq<char>) -> Seq<u8> {
    vstd::utf8::encode_utf8(s)
}

/// Whether two lists of strings hold the same texts.
pub open spec fn same_texts(a: Seq<String>, b: Seq<String>) -> bool {
    &&& a.len() == b.len()
    &&& forall|i: int| 0 <= i < a.len() ==> (#[trigger] a[i])@ == b[i]@
}

/// Structural equality of two grammar expressions.
pub open spec fn raw_equal(a: &OptimizedExpr, b: &OptimizedExpr) -> bool
    decreases a,
{
    match (a, b) {
        (OptimizedExpr::Str(x), OptimizedExpr::Str(y)) => x@ == y@,
        (OptimizedExpr::Insens(x), OptimizedExpr::Insens(y)) => x@ == y@,
        (OptimizedExpr::Range(x, y), OptimizedExpr::Range(z, w)) => x@ == z@ && y@ == w@,
        (OptimizedExpr::Ident(x), OptimizedExpr::Ident(y)) => x@ == y@,
        (OptimizedExpr::PeekSlice(x, y), OptimizedExpr::PeekSlice(z, w)) => x == z && y == w,
        (OptimizedExpr::PosPred(x), OptimizedExpr::PosPred(y)) => raw_equal(x, y),
        (OptimizedExpr::NegPred(x), OptimizedExpr::NegPred(y)) => raw_equal(x, y),
        (OptimizedExpr::Seq(x, y), OptimizedExpr::Seq(z, w)) => raw_equal(x, z) && raw_equal(
            y,
            w,
        ),
        (OptimizedExpr::Choice(x, y), OptimizedExpr::Choice(z, w)) => raw_equal(x, z)
            && raw_equal(y, w),
        (OptimizedExpr::Opt(x), OptimizedExpr::Opt(y)) => raw_equal(x, y),
        (OptimizedExpr::Rep(x), OptimizedExpr::Rep(y)) => raw_equal(x, y),
        (OptimizedExpr::Skip(x), OptimizedExpr::Skip(y)) => same_texts(x@, y@),
        (OptimizedExpr::Push(x), OptimizedExpr::Push(y)) => raw_equal(x, y),
        (OptimizedExpr::RestoreOnErr(x), OptimizedExpr::RestoreOnErr(y)) => raw_equal(x, y),
        _ => false,
    }
}

/// The number of nodes of a grammar expression.
pub open spec fn raw_size(e: &OptimizedExpr) -> nat
    decreases e,
{
    match e {
        OptimizedExpr::PosPred(x) => 1 + raw_size(x),
        OptimizedExpr::NegPred(x) => 1 + raw_size(x),
        OptimizedExpr::Seq(x, y) => 1 + raw_size(x) + raw_size(y),
        OptimizedExpr::Choice(x, y) => 1 + raw_size(x) + raw_size(y),
        OptimizedExpr::Opt(x) => 1 + raw_size(x),
        OptimizedExpr::Rep(x) => 1 + raw_size(x),
        OptimizedExpr::Push(x) => 1 + raw_size(x),
        OptimizedExpr::RestoreOnErr(x) => 1 + raw_size(x),
        _ => 1,
    }
}

fn same_strings(a: &Vec<String>, b: &Vec<String>) -> (r: bool)
    ensures
        r == same_texts(a@, b@),
{
    if a.len() != b.len() {
        return false;
    }
    let mut i: usize = 0;
    while i < a.len()
        invariant
            i <= a.len(),
            a.len() == b.len(),
            forall|j: int| 0 <= j < i ==> (#[trigger] a@[j])@ == b@[j]@,
        decreases a.len() - i,
    {
        if a[i] != b[i] {
            return false;
        }
        i += 1;
    }
    true
}

fn same_bound(a: &Option<i32>, b: &Option<i32>) -> (r: bool)
    ensures
        r == (*a == *b),
{
    match (a, b) {
        (Some(x), Some(y)) => *x == *y,
        (None, None) => true,
        _ => false,
    }
}

/// Whether two grammar expressions are structurally equal.
pub fn raw_same(a: &OptimizedExpr, b: &OptimizedExpr) -> (r: bool)
    ensures
        r == raw_equal(a, b),
    decreases a,
{
    match (a, b) {
        (OptimizedExpr::Str(x), OptimizedExpr::Str(y)) => *x == *y,
        (OptimizedExpr::Insens(x), OptimizedExpr::Insens(y)) => *x == *y,
        (OptimizedExpr::Range(x, y), OptimizedExpr::Range(z, w)) => *x == *z && *y == *w,
        (OptimizedExpr::Ident(x), OptimizedExpr::Ident(y)) => *x == *y,
        (OptimizedExpr::PeekSlice(x, y), OptimizedExpr::PeekSlice(z, w)) => *x == *z
            && same_bound(y, w),
        (OptimizedExpr::PosPred(x), OptimizedExpr::PosPred(y)) => raw_same(x, y),
        (OptimizedExpr::NegPred(x), OptimizedExpr::NegPred(y)) => raw_same(x, y),
        (OptimizedExpr::Seq(x, y), OptimizedExpr::Seq(z, w)) => raw_same(x, z) && raw_same(y, w),
        (OptimizedExpr::Choice(x, y), OptimizedExpr::Choice(z, w)) => raw_same(x, z) && raw_same(
            y,
            w,
        ),
        (OptimizedExpr::Opt(x), OptimizedExpr::Opt(y)) => raw_same(x, y),
        (OptimizedExpr::Rep(x), OptimizedExpr::Rep(y)) => raw_same(x, y),
        (OptimizedExpr::Skip(x), OptimizedExpr::Skip(y)) => same_strings(x, y),
        (OptimizedExpr::Push(x), OptimizedExpr::Push(y)) => raw_same(x, y),
        (OptimizedExpr::RestoreOnErr(x), OptimizedExpr::RestoreOnErr(y)) => raw_same(x, y),
        _ => false,
    }
}

} // verus!
