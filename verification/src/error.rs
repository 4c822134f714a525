//! What a failed match reports.
use vstd::prelude::*;
use vstd::string::*;
use crate::raw::bytes_of;
use crate::text::{
    append_decimal,
    append_decimal_wide,
    decimal_text,
    joined,
    push_char,
    slice_of,
    sliceable,
};

verus! {

/// Why a match failed.
#[derive(Debug)]
pub enum ErrorKind {
    /// An exact literal was required and is absent.
    ExpectedValue(String),
    /// A byte that passes some test, or some other thing that the text
    /// names, was required and is absent.
    Expected(String),
    /// A lookahead that had to fail has matched.
    NegPredFailed(String),
    /// Every alternative of a choice failed; one error for each.
    All(Vec<Error>),
}

/// A failed match: its cause, how many bytes of the input were left where
/// it failed, the contexts that it passed on its way up, innermost first,
/// and a hint, if one was attached.
#[derive(Debug)]
pub struct Error {
    kind: ErrorKind,
    remaining_bytes: usize,
    trace: Vec<String>,
    note: Option<String>,
}

/// What a cause is, with texts as sequences of characters.
pub enum KindModel {
    ExpectedValue(Seq<char>),
    Expected(Seq<char>),
    NegPredFailed(Seq<char>),
    All(Seq<ErrorModel>),
}

/// What an error is, with texts as sequences of characters.
pub struct ErrorModel {
    pub kind: KindModel,
    pub remaining: nat,
    pub trace: Seq<Seq<char>>,
    pub note: Option<Seq<char>>,
}

/// The texts of a list of strings.
pub open spec fn texts_of(items: Seq<String>) -> Seq<Seq<char>> {
    Seq::new(items.len(), |i: int| items[i]@)
}

/// The text of an optional string.
pub open spec fn text_of(item: Option<String>) -> Option<Seq<char>> {
    match item {
        Some(s) => Some(s@),
        None => None,
    }
}

/// The model of a cause.
pub closed spec fn kind_model(kind: &ErrorKind) -> KindModel
    decreases kind,
{
    match kind {
        ErrorKind::ExpectedValue(s) => KindModel::ExpectedValue(s@),
        ErrorKind::Expected(s) => KindModel::Expected(s@),
        ErrorKind::NegPredFailed(s) => KindModel::NegPredFailed(s@),
        ErrorKind::All(errors) => KindModel::All(
            Seq::new(
                errors@.len(),
                |i: int|
                    if 0 <= i < errors@.len() {
                        error_model(&errors@[i])
                    } else {
                        arbitrary()
                    },
            ),
        ),
    }
}

/// The model of an error.
pub closed spec fn error_model(e: &Error) -> ErrorModel
    decreases e,
{
    ErrorModel {
        kind: kind_model(&e.kind),
        remaining: e.remaining_bytes as nat,
        trace: texts_of(e.trace@),
        note: text_of(e.note),
    }
}

impl View for ErrorKind {
    type V = KindModel;

    open spec fn view(&self) -> KindModel {
        kind_model(self)
    }
}

impl View for Error {
    type V = ErrorModel;

    open spec fn view(&self) -> ErrorModel {
        error_model(self)
    }
}

/// The models of a list of errors.
pub open spec fn error_models(errors: Seq<Error>) -> Seq<ErrorModel> {
    Seq::new(errors.len(), |i: int| errors[i]@)
}

/// What the causes are modelled by.
pub proof fn lemma_kind_model(kind: &ErrorKind)
    ensures
        kind@ == (match kind {
            ErrorKind::ExpectedValue(s) => KindModel::ExpectedValue(s@),
            ErrorKind::Expected(s) => KindModel::Expected(s@),
            ErrorKind::NegPredFailed(s) => KindModel::NegPredFailed(s@),
            ErrorKind::All(errors) => KindModel::All(error_models(errors@)),
        }),
{
    match kind {
        ErrorKind::All(errors) => {
            assert(kind_model(kind)->All_0 =~= error_models(errors@));
        },
        _ => {},
    }
}

/// The description of a cause.
pub open spec fn kind_text(kind: KindModel) -> Seq<char> {
    match kind {
        KindModel::ExpectedValue(expected) => "Expected value: "@ + expected,
        KindModel::Expected(expected) => "Expected: "@ + expected,
        KindModel::NegPredFailed(not_expected) => "Negated predicate failed: "@ + not_expected,
        KindModel::All(errors) => "All "@ + decimal_text(errors.len()) + " accepted patterns fail to match"@,
    }
}

impl ErrorKind {
    /// An absent literal.
    pub fn expected_value(value: &str) -> (r: ErrorKind)
        ensures
            r@ == KindModel::ExpectedValue(value@),
    {
        ErrorKind::ExpectedValue(String::from_str(value))
    }

    /// An absent thing that the text names.
    pub fn expected(what: &str) -> (r: ErrorKind)
        ensures
            r@ == KindModel::Expected(what@),
    {
        ErrorKind::Expected(String::from_str(what))
    }

    /// A lookahead that matched.
    pub fn neg_pred_failed(what: &str) -> (r: ErrorKind)
        ensures
            r@ == KindModel::NegPredFailed(what@),
    {
        ErrorKind::NegPredFailed(String::from_str(what))
    }

    /// The failure of every alternative.
    pub fn all(errors: Vec<Error>) -> (r: ErrorKind)
        ensures
            r@ == KindModel::All(error_models(errors@)),
    {
        let r = ErrorKind::All(errors);
        proof {
            lemma_kind_model(&r);
        }
        r
    }

    /// The description of the cause.
    pub fn describe(&self) -> (r: String)
        ensures
            r@ == kind_text(self@),
    {
        proof {
            lemma_kind_model(self);
        }
        match self {
            ErrorKind::ExpectedValue(expected) => {
                let mut r = String::from_str("Expected value: ");
                r.append(expected.as_str());
                r
            },
            ErrorKind::Expected(expected) => {
                let mut r = String::from_str("Expected: ");
                r.append(expected.as_str());
                r
            },
            ErrorKind::NegPredFailed(not_expected) => {
                let mut r = String::from_str("Negated predicate failed: ");
                r.append(not_expected.as_str());
                r
            },
            ErrorKind::All(errors) => {
                let mut r = String::from_str("All ");
                append_decimal(&mut r, errors.len());
                r.append(" accepted patterns fail to match");
                r
            },
        }
    }
}

impl Error {
    #[verifier::type_invariant]
    spec fn well_formed(self) -> bool {
        self.trace@.len() >= 1
    }

    /// The error of a failure with the given input left, in the context
    /// `root`.
    pub fn new(kind: ErrorKind, input: &str, root: &str) -> (r: Error)
        ensures
            r@ == (ErrorModel {
                kind: kind@,
                remaining: input.len() as nat,
                trace: seq![root@],
                note: None,
            }),
    {
        Error::at(kind, input.len(), root)
    }

    /// The error of a failure with `remaining` bytes of the input left, in
    /// the context `root`.
    pub fn at(kind: ErrorKind, remaining: usize, root: &str) -> (r: Error)
        ensures
            r@ == (ErrorModel {
                kind: kind@,
                remaining: remaining as nat,
                trace: seq![root@],
                note: None,
            }),
    {
        let mut trace: Vec<String> = Vec::new();
        trace.push(String::from_str(root));
        let r = Error { kind, remaining_bytes: remaining, trace, note: None };
        assert(texts_of(r.trace@) =~= seq![root@]);
        r
    }

    /// The error with one more context at the end of its trace.
    pub fn with_trace(self, trace: &str) -> (r: Error)
        ensures
            r@ == (ErrorModel { trace: self@.trace.push(trace@), ..self@ }),
    {
        proof {
            use_type_invariant(&self);
        }
        let Error { kind, remaining_bytes, trace: frames, note } = self;
        let mut frames = frames;
        frames.push(String::from_str(trace));
        let e = Error { kind, remaining_bytes, trace: frames, note };
        assert(texts_of(e.trace@) =~= self@.trace.push(trace@));
        e
    }

    /// The error with the hint, unless it has one already.
    pub fn with_note(self, note: &str) -> (r: Error)
        ensures
            r@ == (ErrorModel {
                note: if self@.note is None {
                    Some(note@)
                } else {
                    self@.note
                },
                ..self@
            }),
    {
        proof {
            use_type_invariant(&self);
        }
        let Error { kind, remaining_bytes, trace, note: attached } = self;
        let attached = if attached.is_none() {
            Some(String::from_str(note))
        } else {
            attached
        };
        Error { kind, remaining_bytes, trace, note: attached }
    }

    /// The cause.
    pub fn kind(&self) -> (r: &ErrorKind)
        ensures
            r@ == self@.kind,
    {
        &self.kind
    }

    /// How many bytes of the input were left where the match failed.
    pub fn remaining_bytes(&self) -> (r: usize)
        ensures
            r == self@.remaining,
    {
        self.remaining_bytes
    }

    /// The contexts that the error passed, innermost first; there is at
    /// least the one in which the error arose.
    pub fn trace(&self) -> (r: &Vec<String>)
        ensures
            texts_of(r@) == self@.trace,
            r@.len() >= 1,
    {
        proof {
            use_type_invariant(self);
        }
        &self.trace
    }

    /// The hint, if one was attached.
    pub fn note(&self) -> (r: &Option<String>)
        ensures
            text_of(*r) == self@.note,
    {
        &self.note
    }
}

/// The escape sequence for bold red.
pub const RED: &'static str = "\x1b[31;1m";

/// The escape sequence that ends a colour.
pub const NORMAL: &'static str = "\x1b[0m";

/// The escape sequence for bold blue.
pub const BLUE: &'static str = "\x1b[34;1m";

/// The escape sequence for bold.
pub const BOLD: &'static str = "\x1b[1m";

/// Where the line begins that holds the byte before the place: after the
/// last line feed before the place, or at the start.
pub open spec fn line_start_of(bytes: Seq<u8>, pos: int) -> int
    decreases pos,
{
    if pos <= 0 {
        0
    } else if bytes[pos - 1] == 10 {
        pos
    } else {
        line_start_of(bytes, pos - 1)
    }
}

/// Where the line ends that begins at the place or holds it: at the
/// first line feed from the place on, or at the end.
pub open spec fn line_end_of(bytes: Seq<u8>, pos: int) -> int
    decreases bytes.len() - pos,
{
    if pos < 0 || pos >= bytes.len() {
        bytes.len() as int
    } else if bytes[pos] == 10 {
        pos
    } else {
        line_end_of(bytes, pos + 1)
    }
}

/// The number of line feeds before the place.
pub open spec fn line_feeds(bytes: Seq<u8>, pos: int) -> nat
    decreases pos,
{
    if pos <= 0 {
        0
    } else if bytes[pos - 1] == 10 {
        1 + line_feeds(bytes, pos - 1)
    } else {
        line_feeds(bytes, pos - 1)
    }
}

/// The number of characters that begin from the one place up to the
/// other: the bytes there that do not continue a character.
pub open spec fn characters(bytes: Seq<u8>, from: int, to: int) -> nat
    decreases to - from,
{
    if to <= from {
        0
    } else if vstd::utf8::is_continuation_byte(bytes[to - 1]) {
        characters(bytes, from, to - 1)
    } else {
        1 + characters(bytes, from, to - 1)
    }
}

/// Where in an input a match failed: the byte, counted from the start;
/// the line, counted from one; the column, counted in bytes from one; the
/// bounds of the line; and the number of characters of the line before
/// the byte.
pub struct Location {
    pub position: usize,
    pub line: u128,
    pub column: u128,
    pub line_start: usize,
    pub line_end: usize,
    pub characters_before: usize,
}

/// The place in an input of that many bytes where so many were left.
pub open spec fn located(bytes: Seq<u8>, remaining: nat) -> Location {
    let position = bytes.len() - remaining;
    Location {
        position: position as usize,
        line: (line_feeds(bytes, position) + 1) as u128,
        column: (position - line_start_of(bytes, position) + 1) as u128,
        line_start: line_start_of(bytes, position) as usize,
        line_end: line_end_of(bytes, position) as usize,
        characters_before: characters(bytes, line_start_of(bytes, position), position) as usize,
    }
}

/// The start of a line lies at or before the place.
pub proof fn lemma_line_start(bytes: Seq<u8>, pos: int)
    requires
        0 <= pos <= bytes.len(),
    ensures
        0 <= line_start_of(bytes, pos) <= pos,
    decreases pos,
{
    if pos > 0 && bytes[pos - 1] != 10 {
        lemma_line_start(bytes, pos - 1);
    }
}

/// The end of a line lies at or after the place, inside the input.
pub proof fn lemma_line_end(bytes: Seq<u8>, pos: int)
    requires
        0 <= pos <= bytes.len(),
    ensures
        pos <= line_end_of(bytes, pos) <= bytes.len(),
    decreases bytes.len() - pos,
{
    if pos < bytes.len() && bytes[pos] != 10 {
        lemma_line_end(bytes, pos + 1);
    }
}

/// There are no more line feeds before a place than bytes.
pub proof fn lemma_line_feeds(bytes: Seq<u8>, pos: int)
    requires
        0 <= pos <= bytes.len(),
    ensures
        line_feeds(bytes, pos) <= pos,
    decreases pos,
{
    if pos > 0 {
        lemma_line_feeds(bytes, pos - 1);
    }
}

/// There are no more characters in a range than bytes.
pub proof fn lemma_characters(bytes: Seq<u8>, from: int, to: int)
    requires
        0 <= from <= to <= bytes.len(),
    ensures
        characters(bytes, from, to) <= to - from,
    decreases to - from,
{
    if to > from {
        lemma_characters(bytes, from, to - 1);
    }
}

/// Finds the place in an input where so many bytes were left.
pub fn locate(input: &[u8], remaining: usize) -> (r: Location)
    requires
        remaining <= input.len(),
    ensures
        r == located(input@, remaining as nat),
        r.line_start <= r.position <= r.line_end <= input.len(),
{
    let position = input.len() - remaining;
    proof {
        lemma_line_start(input@, position as int);
        lemma_line_end(input@, position as int);
        lemma_line_feeds(input@, position as int);
    }
    let mut line_start: usize = position;
    while line_start > 0 && input[line_start - 1] != 10
        invariant
            0 <= line_start <= position <= input.len(),
            line_start_of(input@, position as int) == line_start_of(input@, line_start as int),
        decreases line_start,
    {
        line_start -= 1;
    }
    let mut line_end: usize = position;
    while line_end < input.len() && input[line_end] != 10
        invariant
            position <= line_end <= input.len(),
            line_end_of(input@, position as int) == line_end_of(input@, line_end as int),
        decreases input.len() - line_end,
    {
        line_end += 1;
    }
    let mut feeds: u128 = 0;
    let mut characters_before: usize = 0;
    let mut i: usize = 0;
    proof {
        lemma_characters(input@, line_start as int, position as int);
    }
    while i < position
        invariant
            i <= position <= input.len(),
            line_start <= position,
            feeds == line_feeds(input@, i as int),
            feeds <= i,
            characters_before == characters(
                input@,
                line_start as int,
                if i < line_start {
                    line_start as int
                } else {
                    i as int
                },
            ),
            characters_before <= i,
        decreases position - i,
    {
        if input[i] == 10 {
            feeds += 1;
        }
        if i >= line_start && !(0x80 <= input[i] && input[i] <= 0xbf) {
            characters_before += 1;
        }
        i += 1;
    }
    Location {
        position,
        line: feeds + 1,
        column: (position - line_start) as u128 + 1,
        line_start,
        line_end,
        characters_before,
    }
}

/// The text between two places of an input, counted in bytes; nothing
/// where one of them lies inside a character.
pub open spec fn span_text(bytes: Seq<u8>, from: int, to: int) -> Seq<char> {
    if sliceable(bytes, from, to) {
        vstd::utf8::decode_utf8(bytes.subrange(from, to))
    } else {
        Seq::empty()
    }
}

/// A run of spaces.
pub open spec fn spaces(n: nat) -> Seq<char> {
    Seq::new(n, |i: int| ' ')
}

/// The text with spaces after it, up to a width.
pub open spec fn padded_right(text: Seq<char>, width: nat) -> Seq<char> {
    if text.len() >= width {
        text
    } else {
        text + spaces((width - text.len()) as nat)
    }
}

/// The line that names the cause.
pub open spec fn cause_line(kind: KindModel) -> Seq<char> {
    RED@ + "error"@ + NORMAL@ + ": "@ + kind_text(kind) + "\n"@
}

/// The line that names the innermost context, the line and the column.
pub open spec fn place_line(root: Seq<char>, line: nat, column: nat) -> Seq<char> {
    BLUE@ + "  -->"@ + NORMAL@ + " "@ + root + ":"@ + decimal_text(line) + ":"@ + decimal_text(
        column,
    ) + "\n"@
}

/// The empty line of the margin.
pub open spec fn margin_line() -> Seq<char> {
    BLUE@ + "   |"@ + NORMAL@ + "\n"@
}

/// The line of the input, after its number.
pub open spec fn source_line(line: nat, text: Seq<char>) -> Seq<char> {
    BLUE@ + padded_right(decimal_text(line), 3) + "|"@ + NORMAL@ + " "@ + text + "\n"@
}

/// The line with the caret, after so many spaces.
pub open spec fn caret_line(before: nat) -> Seq<char> {
    BLUE@ + "   |"@ + NORMAL@ + " "@ + spaces(before) + RED@ + "^"@ + NORMAL@ + "\n"@
}

/// The line of the hint; nothing where there is none.
pub open spec fn note_line(note: Option<Seq<char>>) -> Seq<char> {
    match note {
        Some(text) => "   "@ + BLUE@ + "= "@ + NORMAL@ + BOLD@ + "note"@ + NORMAL@ + ": "@ + text
            + "\n"@,
        None => Seq::empty(),
    }
}

/// The line of the trace.
pub open spec fn trace_line(trace: Seq<Seq<char>>) -> Seq<char> {
    "   "@ + BLUE@ + "= "@ + NORMAL@ + BOLD@ + "trace"@ + NORMAL@ + ": "@ + joined(trace, ", "@)
        + "\n"@
}

/// The report of an error on the input that it arose on: the cause; the
/// innermost context with the line and the column of the failure; the
/// line of the input, and under it a caret at the failure; the hint, if
/// there is one; and the whole trace.
pub open spec fn rendered(e: ErrorModel, input: Seq<char>) -> Seq<char> {
    let bytes = bytes_of(input);
    let at = located(bytes, e.remaining);
    cause_line(e.kind) + place_line(e.trace[0], at.line as nat, at.column as nat) + margin_line()
        + source_line(
        at.line as nat,
        span_text(bytes, at.line_start as int, at.line_end as int),
    ) + caret_line(at.characters_before as nat) + note_line(e.note) + trace_line(e.trace)
}

/// The texts with the separator between them.
pub fn join(parts: &Vec<String>, separator: &str) -> (r: String)
    ensures
        r@ == joined(texts_of(parts@), separator@),
{
    let ghost all = texts_of(parts@);
    let mut r = String::new();
    let mut i: usize = 0;
    while i < parts.len()
        invariant
            i <= parts.len(),
            all == texts_of(parts@),
            r@ == joined(all.take(i as int), separator@),
        decreases parts.len() - i,
    {
        let ghost before = r@;
        if i > 0 {
            r.append(separator);
        }
        r.append(parts[i].as_str());
        proof {
            let now = all.take(i + 1);
            assert(now.drop_last() =~= all.take(i as int));
            assert(now.last() == parts@[i as int]@);
            if i == 0 {
                assert(Seq::<char>::empty() + parts@[i as int]@ =~= parts@[i as int]@);
            }
        }
        i += 1;
    }
    assert(all.take(parts.len() as int) =~= all);
    r
}

fn spaces_of(n: usize) -> (r: String)
    ensures
        r@ == spaces(n as nat),
{
    let mut r = String::new();
    let mut i: usize = 0;
    while i < n
        invariant
            i <= n,
            r@ == spaces(i as nat),
        decreases n - i,
    {
        push_char(&mut r, ' ');
        i += 1;
        assert(r@ =~= spaces(i as nat));
    }
    r
}

fn pad_right(text: String, width: usize) -> (r: String)
    ensures
        r@ == padded_right(text@, width as nat),
{
    let len = text.as_str().unicode_len();
    if len >= width {
        text
    } else {
        let mut r = text;
        r.append(spaces_of(width - len).as_str());
        r
    }
}

fn cause(kind: &ErrorKind) -> (r: String)
    ensures
        r@ == cause_line(kind@),
{
    let mut r = String::from_str(RED);
    r.append("error");
    r.append(NORMAL);
    r.append(": ");
    r.append(kind.describe().as_str());
    r.append("\n");
    r
}

fn place(root: &str, line: u128, column: u128) -> (r: String)
    ensures
        r@ == place_line(root@, line as nat, column as nat),
{
    let mut r = String::from_str(BLUE);
    r.append("  -->");
    r.append(NORMAL);
    r.append(" ");
    r.append(root);
    r.append(":");
    append_decimal_wide(&mut r, line);
    r.append(":");
    append_decimal_wide(&mut r, column);
    r.append("\n");
    r
}

fn margin() -> (r: String)
    ensures
        r@ == margin_line(),
{
    let mut r = String::from_str(BLUE);
    r.append("   |");
    r.append(NORMAL);
    r.append("\n");
    r
}

fn source(line: u128, text: &str) -> (r: String)
    ensures
        r@ == source_line(line as nat, text@),
{
    let mut number = String::new();
    append_decimal_wide(&mut number, line);
    assert(number@ =~= decimal_text(line as nat));
    let mut r = String::from_str(BLUE);
    r.append(pad_right(number, 3).as_str());
    r.append("|");
    r.append(NORMAL);
    r.append(" ");
    r.append(text);
    r.append("\n");
    r
}

fn caret(before: usize) -> (r: String)
    ensures
        r@ == caret_line(before as nat),
{
    let mut r = String::from_str(BLUE);
    r.append("   |");
    r.append(NORMAL);
    r.append(" ");
    r.append(spaces_of(before).as_str());
    r.append(RED);
    r.append("^");
    r.append(NORMAL);
    r.append("\n");
    r
}

fn note_of(note: &Option<String>) -> (r: String)
    ensures
        r@ == note_line(text_of(*note)),
{
    match note {
        Some(text) => {
            let mut r = String::from_str("   ");
            r.append(BLUE);
            r.append("= ");
            r.append(NORMAL);
            r.append(BOLD);
            r.append("note");
            r.append(NORMAL);
            r.append(": ");
            r.append(text.as_str());
            r.append("\n");
            r
        },
        None => String::new(),
    }
}

fn trace_of(trace: &Vec<String>) -> (r: String)
    ensures
        r@ == trace_line(texts_of(trace@)),
{
    let mut r = String::from_str("   ");
    r.append(BLUE);
    r.append("= ");
    r.append(NORMAL);
    r.append(BOLD);
    r.append("trace");
    r.append(NORMAL);
    r.append(": ");
    r.append(join(trace, ", ").as_str());
    r.append("\n");
    r
}

impl Error {
    /// The report of the error on the input that it arose on.
    pub fn render(&self, input: &str) -> (r: String)
        requires
            self@.remaining <= input.spec_bytes().len(),
        ensures
            r@ == rendered(self@, input@),
    {
        broadcast use vstd::utf8::encode_utf8_decode_utf8;

        proof {
            use_type_invariant(self);
        }
        let bytes = input.as_bytes();
        let at = locate(bytes, self.remaining_bytes);
        let line_text = match slice_of(input, at.line_start, at.line_end) {
            Some(text) => text,
            None => "",
        };
        proof {
            reveal_strlit("");
            assert(line_text@ =~= span_text(
                bytes@,
                at.line_start as int,
                at.line_end as int,
            ));
            assert(texts_of(self.trace@)[0] == self.trace@[0]@);
        }
        let mut r = cause(&self.kind);
        r.append(place(self.trace[0].as_str(), at.line, at.column).as_str());
        r.append(margin().as_str());
        r.append(source(at.line, line_text).as_str());
        r.append(caret(at.characters_before).as_str());
        r.append(note_of(&self.note).as_str());
        r.append(trace_of(&self.trace).as_str());
        r
    }
}

} // verus!
