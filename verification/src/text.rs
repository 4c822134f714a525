//! Operations on text that the generator is built from.
use vstd::prelude::*;
use vstd::string::*;

verus! {

/// Appends one character: `String::push` of the standard library, which
/// leaves what the string held and adds the character at its end.
#[verifier::external_body]
pub(crate) fn push_char(s: &mut String, c: char)
    ensures
        final(s)@ == old(s)@.push(c),
{
    s.push(c)
}

/// Whether two strings hold the same characters.
pub fn str_eq(a: &str, b: &str) -> (r: bool)
    ensures
        r == (a@ == b@),
{
    let x = a.to_owned();
    let y = b.to_owned();
    x == y
}

/// The characters of a string, in order.
pub fn chars_of(s: &str) -> (v: Vec<char>)
    ensures
        v@ == s@,
{
    let n = s.unicode_len();
    let mut v: Vec<char> = Vec::new();
    let mut i: usize = 0;
    while i < n
        invariant
            n == s@.len(),
            i <= n,
            v@ == s@.subrange(0, i as int),
        decreases n - i,
    {
        v.push(s.get_char(i));
        i += 1;
        assert(v@ =~= s@.subrange(0, i as int));
    }
    assert(s@.subrange(0, n as int) =~= s@);
    v
}

/// Appends the characters to the string.
pub fn append_chars(s: &mut String, v: &Vec<char>)
    ensures
        final(s)@ == old(s)@ + v@,
{
    let mut i: usize = 0;
    while i < v.len()
        invariant
            i <= v.len(),
            s@ == old(s)@ + v@.subrange(0, i as int),
        decreases v.len() - i,
    {
        push_char(s, v[i]);
        i += 1;
        assert(s@ =~= old(s)@ + v@.subrange(0, i as int));
    }
    assert(v@.subrange(0, v.len() as int) =~= v@);
}

/// The string made of the characters.
pub fn string_of(v: &Vec<char>) -> (s: String)
    ensures
        s@ == v@,
{
    let mut s = String::new();
    append_chars(&mut s, v);
    assert(Seq::<char>::empty() + v@ =~= v@);
    s
}

/// The character of a decimal digit.
pub open spec fn digit_char(d: nat) -> char {
    if d == 0 {
        '0'
    } else if d == 1 {
        '1'
    } else if d == 2 {
        '2'
    } else if d == 3 {
        '3'
    } else if d == 4 {
        '4'
    } else if d == 5 {
        '5'
    } else if d == 6 {
        '6'
    } else if d == 7 {
        '7'
    } else if d == 8 {
        '8'
    } else {
        '9'
    }
}

/// A number in decimal digits, without leading zeros.
pub open spec fn decimal_text(n: nat) -> Seq<char>
    decreases n,
{
    if n < 10 {
        seq![digit_char(n)]
    } else {
        decimal_text(n / 10).push(digit_char(n % 10))
    }
}

/// A run of zeros.
pub open spec fn zeros(n: nat) -> Seq<char> {
    Seq::new(n, |i: int| '0')
}

/// A number in decimal digits, with zeros in front up to a width.
pub open spec fn padded_text(n: nat, width: nat) -> Seq<char> {
    let digits = decimal_text(n);
    if digits.len() >= width {
        digits
    } else {
        zeros((width - digits.len()) as nat) + digits
    }
}

fn digit(d: usize) -> (c: char)
    requires
        d < 10,
    ensures
        c == digit_char(d as nat),
{
    if d == 0 {
        '0'
    } else if d == 1 {
        '1'
    } else if d == 2 {
        '2'
    } else if d == 3 {
        '3'
    } else if d == 4 {
        '4'
    } else if d == 5 {
        '5'
    } else if d == 6 {
        '6'
    } else if d == 7 {
        '7'
    } else if d == 8 {
        '8'
    } else {
        '9'
    }
}

/// Appends a number in decimal digits.
pub fn append_decimal(s: &mut String, n: usize)
    ensures
        final(s)@ == old(s)@ + decimal_text(n as nat),
    decreases n,
{
    if n >= 10 {
        append_decimal(s, n / 10);
    }
    push_char(s, digit(n % 10));
    proof {
        if n >= 10 {
            assert(s@ =~= old(s)@ + decimal_text(n as nat));
        } else {
            assert(s@ =~= old(s)@ + decimal_text(n as nat));
        }
    }
}

/// Appends a number of up to 128 bits in decimal digits.
pub fn append_decimal_wide(s: &mut String, n: u128)
    ensures
        final(s)@ == old(s)@ + decimal_text(n as nat),
    decreases n,
{
    if n >= 10 {
        append_decimal_wide(s, n / 10);
    }
    push_char(s, digit((n % 10) as usize));
    proof {
        assert(s@ =~= old(s)@ + decimal_text(n as nat));
    }
}

/// A number in decimal digits.
pub fn decimal(n: usize) -> (s: String)
    ensures
        s@ == decimal_text(n as nat),
{
    let mut s = String::new();
    append_decimal(&mut s, n);
    assert(Seq::<char>::empty() + decimal_text(n as nat) =~= decimal_text(n as nat));
    s
}

/// A number in decimal digits, with zeros in front up to a width.
pub fn padded(n: usize, width: usize) -> (s: String)
    ensures
        s@ == padded_text(n as nat, width as nat),
{
    let digits = decimal(n);
    let len = digits.as_str().unicode_len();
    let mut s = String::new();
    let mut i: usize = len;
    while i < width
        invariant
            len == digits@.len(),
            i >= len,
            i <= width || i == len,
            s@ == zeros((i - len) as nat),
        decreases width - i,
    {
        push_char(&mut s, '0');
        i += 1;
        assert(s@ =~= zeros((i - len) as nat));
    }
    s.append(digits.as_str());
    proof {
        if len >= width {
            assert(zeros(0) + digits@ =~= digits@);
        } else {
            assert(i == width);
        }
    }
    s
}

/// The text with the other text after it.
pub fn concat2(a: &str, b: &str) -> (s: String)
    ensures
        s@ == a@ + b@,
{
    let mut s = String::from_str(a);
    s.append(b);
    s
}

/// The three texts, one after the other.
pub fn concat3(a: &str, b: &str, c: &str) -> (s: String)
    ensures
        s@ == a@ + b@ + c@,
{
    let mut s = String::from_str(a);
    s.append(b);
    s.append(c);
    s
}

/// The text of a string as the standard library prints it for debugging:
/// between double quotes, with the characters that need it escaped.
pub uninterp spec fn debug_text(s: Seq<char>) -> Seq<char>;

/// Formats a string with `{:?}`, the `Debug` form of `str` in the
/// standard library. The result depends on the characters of the string
/// alone; nothing more is stated of it.
#[verifier::external_body]
pub(crate) fn debug_string(s: &str) -> (r: String)
    ensures
        r@ == debug_text(s@),
{
    format!("{s:?}")
}

/// The pattern stands in the text at the place.
pub open spec fn has_at(text: Seq<char>, i: int, pattern: Seq<char>) -> bool {
    0 <= i && i + pattern.len() <= text.len() && text.subrange(i, i + pattern.len()) == pattern
}

/// The pattern occurs in the text.
pub open spec fn contains_text(text: Seq<char>, pattern: Seq<char>) -> bool {
    exists|i: int| has_at(text, i, pattern)
}

/// The text with every occurrence of a pattern replaced, from left to
/// right, an occurrence starting no earlier than where the one before it
/// ended. An empty pattern occurs nowhere.
pub open spec fn replaced(text: Seq<char>, from: Seq<char>, to: Seq<char>) -> Seq<char>
    decreases text.len(),
{
    if from.len() == 0 || text.len() < from.len() {
        text
    } else if has_at(text, 0, from) {
        to + replaced(text.skip(from.len() as int), from, to)
    } else {
        seq![text[0]] + replaced(text.skip(1), from, to)
    }
}

/// The texts with the separator between them.
pub open spec fn joined(parts: Seq<Seq<char>>, separator: Seq<char>) -> Seq<char>
    decreases parts.len(),
{
    if parts.len() == 0 {
        Seq::empty()
    } else if parts.len() == 1 {
        parts[0]
    } else {
        joined(parts.drop_last(), separator) + separator + parts.last()
    }
}

/// The length of the first line: the number of characters before the
/// first line feed, or all of them.
pub open spec fn first_line_len(text: Seq<char>) -> nat
    decreases text.len(),
{
    if text.len() == 0 || text[0] == '\n' {
        0
    } else {
        1 + first_line_len(text.skip(1))
    }
}

/// The first line ends inside the text, holds no line feed, and ends at
/// one unless it ends the text.
pub proof fn lemma_first_line(text: Seq<char>)
    ensures
        first_line_len(text) <= text.len(),
        forall|i: int| 0 <= i < first_line_len(text) ==> text[i] != '\n',
        first_line_len(text) < text.len() ==> text[first_line_len(text) as int] == '\n',
    decreases text.len(),
{
    if text.len() > 0 && text[0] != '\n' {
        lemma_first_line(text.skip(1));
        let rest = text.skip(1);
        assert forall|i: int| 0 <= i < first_line_len(text) implies text[i] != '\n' by {
            if i > 0 {
                assert(rest[i - 1] == text[i]);
            }
        }
        if first_line_len(text) < text.len() {
            assert(rest[first_line_len(rest) as int] == text[first_line_len(text) as int]);
        }
    }
}

/// Whether the pattern stands in the text at the place.
pub fn matches_at(text: &Vec<char>, i: usize, pattern: &Vec<char>) -> (r: bool)
    ensures
        r == has_at(text@, i as int, pattern@),
{
    if i > text.len() || pattern.len() > text.len() - i {
        return false;
    }
    let mut k: usize = 0;
    while k < pattern.len()
        invariant
            k <= pattern.len(),
            i + pattern@.len() <= text@.len() <= usize::MAX,
            forall|j: int| 0 <= j < k ==> text@[i + j] == pattern@[j],
        decreases pattern.len() - k,
    {
        if text[i + k] != pattern[k] {
            assert(text@.subrange(i as int, i + pattern@.len())[k as int] != pattern@[k as int]);
            return false;
        }
        k += 1;
    }
    assert(text@.subrange(i as int, i + pattern@.len()) =~= pattern@);
    true
}

/// Whether the pattern occurs in the part of the text from `lo` up to
/// `hi`.
pub fn occurs_in(text: &Vec<char>, lo: usize, hi: usize, pattern: &Vec<char>) -> (r: bool)
    requires
        lo <= hi <= text.len(),
    ensures
        r == contains_text(text@.subrange(lo as int, hi as int), pattern@),
{
    let ghost part = text@.subrange(lo as int, hi as int);
    if pattern.len() > hi - lo {
        assert(!contains_text(part, pattern@));
        return false;
    }
    let last = hi - pattern.len();
    let mut i: usize = lo;
    loop
        invariant
            lo <= i <= last,
            last == hi - pattern.len(),
            lo <= hi <= text.len(),
            part == text@.subrange(lo as int, hi as int),
            forall|j: int| 0 <= j < i - lo ==> !has_at(part, j, pattern@),
        decreases last - i,
    {
        if matches_at(text, i, pattern) {
            assert(part.subrange(i - lo, i - lo + pattern@.len()) =~= text@.subrange(
                i as int,
                i + pattern@.len(),
            ));
            assert(has_at(part, i - lo, pattern@));
            return true;
        }
        proof {
            if has_at(part, i - lo, pattern@) {
                assert(part.subrange(i - lo, i - lo + pattern@.len()) =~= text@.subrange(
                    i as int,
                    i + pattern@.len(),
                ));
            }
        }
        if i >= last {
            assert(!contains_text(part, pattern@));
            return false;
        }
        i += 1;
    }
}

/// Appends the characters of a list to another.
pub fn extend_chars(out: &mut Vec<char>, more: &Vec<char>)
    ensures
        final(out)@ == old(out)@ + more@,
{
    let mut i: usize = 0;
    while i < more.len()
        invariant
            i <= more.len(),
            out@ == old(out)@ + more@.subrange(0, i as int),
        decreases more.len() - i,
    {
        out.push(more[i]);
        i += 1;
        assert(out@ =~= old(out)@ + more@.subrange(0, i as int));
    }
    assert(more@.subrange(0, more.len() as int) =~= more@);
}

/// The text with every occurrence of a pattern replaced.
pub fn replace_chars(text: &Vec<char>, from: &Vec<char>, to: &Vec<char>) -> (out: Vec<char>)
    ensures
        out@ == replaced(text@, from@, to@),
{
    let mut out: Vec<char> = Vec::new();
    let mut i: usize = 0;
    if from.len() == 0 {
        extend_chars(&mut out, text);
        assert(Seq::<char>::empty() + text@ =~= text@);
        return out;
    }
    assert(out@ + replaced(text@.skip(0), from@, to@) =~= replaced(text@, from@, to@)) by {
        assert(text@.skip(0) =~= text@);
    }
    while i < text.len()
        invariant
            i <= text.len(),
            from.len() > 0,
            replaced(text@, from@, to@) == out@ + replaced(text@.skip(i as int), from@, to@),
        decreases text.len() - i,
    {
        let ghost rest = text@.skip(i as int);
        let ghost before = out@;
        if matches_at(text, i, from) {
            proof {
                assert(rest.subrange(0, from@.len() as int) =~= text@.subrange(
                    i as int,
                    i + from@.len(),
                ));
                assert(rest.skip(from@.len() as int) =~= text@.skip(i + from@.len()));
            }
            extend_chars(&mut out, to);
            i += from.len();
            proof {
                assert(before + (to@ + replaced(text@.skip(i as int), from@, to@)) =~= out@
                    + replaced(text@.skip(i as int), from@, to@));
            }
        } else {
            proof {
                if rest.len() >= from@.len() {
                    if has_at(rest, 0, from@) {
                        assert(rest.subrange(0, from@.len() as int) =~= text@.subrange(
                            i as int,
                            i + from@.len(),
                        ));
                    }
                }
                assert(rest.skip(1) =~= text@.skip(i + 1));
                assert(rest[0] == text@[i as int]);
            }
            out.push(text[i]);
            i += 1;
            proof {
                if rest.len() >= from@.len() {
                    assert(before + (seq![rest[0]] + replaced(
                        text@.skip(i as int),
                        from@,
                        to@,
                    )) =~= out@ + replaced(text@.skip(i as int), from@, to@));
                } else {
                    lemma_short_unchanged(text@.skip(i as int), from@, to@);
                    assert(before + rest =~= out@ + text@.skip(i as int));
                }
            }
        }
    }
    assert(text@.skip(text.len() as int) =~= Seq::<char>::empty());
    assert(out@ + Seq::<char>::empty() =~= out@);
    out
}

/// A text that is shorter than the pattern stays as it is.
pub proof fn lemma_short_unchanged(text: Seq<char>, from: Seq<char>, to: Seq<char>)
    requires
        text.len() < from.len(),
    ensures
        replaced(text, from, to) == text,
{
}

/// The text with every occurrence of a pattern replaced.
pub fn replace(text: &str, from: &str, to: &str) -> (r: String)
    ensures
        r@ == replaced(text@, from@, to@),
{
    let out = replace_chars(&chars_of(text), &chars_of(from), &chars_of(to));
    string_of(&out)
}

/// The two places lie on boundaries of characters of the text, the first
/// no later than the second.
pub open spec fn sliceable(bytes: Seq<u8>, from: int, to: int) -> bool {
    &&& 0 <= from <= to <= bytes.len()
    &&& vstd::utf8::is_char_boundary(bytes, from)
    &&& vstd::utf8::is_char_boundary(bytes, to)
}

/// The part of a text between two places, counted in bytes, where both
/// lie on boundaries of characters.
pub fn slice_of<'a>(input: &'a str, from: usize, to: usize) -> (r: Option<&'a str>)
    ensures
        r is Some <==> sliceable(input.spec_bytes(), from as int, to as int),
        r matches Some(part) ==> part.spec_bytes() == input.spec_bytes().subrange(
            from as int,
            to as int,
        ),
{
    broadcast use {
        vstd::utf8::encode_utf8_valid_utf8,
        vstd::utf8::valid_utf8_split,
        vstd::utf8::is_char_boundary_start_end_of_seq,
    };

    let ghost bytes = input.spec_bytes();
    let len = input.len();
    if from > to || to > input.as_bytes().len() {
        return None;
    }
    if !input.is_char_boundary(from) || !input.is_char_boundary(to) {
        return None;
    }
    let (head, _) = input.split_at(to);
    proof {
        let h = head.spec_bytes();
        assert(h =~= bytes.subrange(0, to as int));
        assert(vstd::utf8::valid_utf8(bytes));
        assert(vstd::utf8::valid_utf8(h));
        if from < to {
            vstd::utf8::is_char_boundary_iff_not_is_continuation_byte(bytes, from as int);
            vstd::utf8::is_char_boundary_iff_not_is_continuation_byte(h, from as int);
            assert(h[from as int] == bytes[from as int]);
        } else {
            assert(vstd::utf8::is_char_boundary(h, h.len() as int));
        }
    }
    let (_, part) = head.split_at(from);
    proof {
        assert(part.spec_bytes() =~= bytes.subrange(from as int, to as int));
    }
    Some(part)
}

/// The digits of a number: there is at least one, there are at least two
/// from ten on, and the first is no zero but for the number zero.
pub proof fn lemma_decimal_shape(n: nat)
    ensures
        decimal_text(n).len() >= 1,
        n >= 10 ==> decimal_text(n).len() >= 2,
        n >= 1 ==> decimal_text(n)[0] != '0',
    decreases n,
{
    if n >= 10 {
        lemma_decimal_shape(n / 10);
        assert(decimal_text(n)[0] == decimal_text(n / 10)[0]);
    }
}

/// Two numbers with the same digits are the same number.
pub proof fn lemma_decimal_injective(a: nat, b: nat)
    requires
        decimal_text(a) == decimal_text(b),
    ensures
        a == b,
    decreases a,
{
    lemma_decimal_shape(a);
    lemma_decimal_shape(b);
    if a >= 10 && b >= 10 {
        let x = decimal_text(a);
        let y = decimal_text(b);
        assert(x.drop_last() =~= decimal_text(a / 10));
        assert(y.drop_last() =~= decimal_text(b / 10));
        assert(x.last() == digit_char(a % 10));
        assert(y.last() == digit_char(b % 10));
        lemma_decimal_injective(a / 10, b / 10);
    } else if a < 10 && b < 10 {
        assert(decimal_text(a)[0] == digit_char(a));
        assert(decimal_text(b)[0] == digit_char(b));
    }
}

/// Two numbers with the same digits after zeros were put in front up to
/// a width are the same number.
pub proof fn lemma_padded_injective(a: nat, b: nat, width: nat)
    requires
        padded_text(a, width) == padded_text(b, width),
    ensures
        a == b,
{
    let x = decimal_text(a);
    let y = decimal_text(b);
    let p = padded_text(a, width);
    let q = padded_text(b, width);
    lemma_decimal_shape(a);
    lemma_decimal_shape(b);
    if x.len() >= width && y.len() >= width {
        lemma_decimal_injective(a, b);
    } else if x.len() >= width {
        assert(q.len() == width);
        assert(q[0] == '0');
        assert(p[0] == x[0]);
    } else if y.len() >= width {
        assert(p.len() == width);
        assert(p[0] == '0');
        assert(q[0] == y[0]);
    } else if x.len() == y.len() {
        assert(x =~= p.subrange(width - x.len(), width as int));
        assert(y =~= q.subrange(width - y.len(), width as int));
        lemma_decimal_injective(a, b);
    } else if x.len() < y.len() {
        let k = width - y.len();
        assert(q[k] == y[0]);
        assert(p[k] == '0');
    } else {
        let k = width - x.len();
        assert(p[k] == x[0]);
        assert(q[k] == '0');
    }
}

} // verus!
