//! The lexical grammar, as mathematics over sequences of characters.
//!
//! A scan walks the source from left to right. At each position it takes
//! one [`step`]: it cuts the longest lexeme that starts there and names its
//! kind, or passes over one piece of insignificant text, or reports an
//! error. [`scan_from`] collects what the steps yield, and ends with the
//! end-of-input lexeme.

use vstd::prelude::*;
use crate::chars::{decimal_digit, whitespace, word_part, word_start};
use crate::error::ErrorView;
use crate::keyword::keyword_kind;
use crate::token::{Kind, TokenView};

verus! {

/// The stretches of text that are consumed character by character.
pub enum Run {
    /// Decimal digits.
    Digits,
    /// What may follow the first character of an identifier.
    Word,
    /// The rest of a line.
    Comment,
    /// The inside of a string literal.
    Quoted,
}

/// Whether a run of kind `run` goes on over `c`.
pub open spec fn in_run(run: Run, c: char) -> bool {
    match run {
        Run::Digits => decimal_digit(c),
        Run::Word => word_part(c),
        Run::Comment => c != '\n',
        Run::Quoted => c != '"',
    }
}

/// Where the longest run of kind `run` that starts at `i` ends: the first
/// position from `i` on whose character is not in the run, or the end of `s`.
pub open spec fn run_end(s: Seq<char>, run: Run, i: int) -> int
    decreases s.len() - i,
{
    if 0 <= i < s.len() && in_run(run, s[i]) {
        run_end(s, run, i + 1)
    } else {
        i
    }
}

/// The number of newline characters among the first `i` characters of `s`.
pub open spec fn newlines(s: Seq<char>, i: int) -> nat
    decreases i,
{
    if i <= 0 {
        0
    } else {
        newlines(s, i - 1) + if s[i - 1] == '\n' {
            1nat
        } else {
            0nat
        }
    }
}

/// The 1-based number of the line that position `i` of `s` lies on.
pub open spec fn line_at(s: Seq<char>, i: int) -> int {
    1 + newlines(s, i) as int
}

/// What one step of the scan yields.
pub enum Outcome {
    /// A token of the given kind.
    Emit(Kind),
    /// Nothing: whitespace or a comment was passed over.
    Skip,
    /// A lexical error, and no token.
    Fail(ErrorView),
}

/// One step of the scan: where it ends and what it yields.
pub struct Step {
    pub end: int,
    pub outcome: Outcome,
}

/// Whether the character after position `i` is `c`.
pub open spec fn followed_by(s: Seq<char>, i: int, c: char) -> bool {
    i + 1 < s.len() && s[i + 1] == c
}

/// The step over an operator that `=` may lengthen.
pub open spec fn operator_step(s: Seq<char>, i: int, short: Kind, long: Kind) -> Step {
    if followed_by(s, i, '=') {
        Step { end: i + 2, outcome: Outcome::Emit(long) }
    } else {
        Step { end: i + 1, outcome: Outcome::Emit(short) }
    }
}

/// The step from a `/`: a comment up to the end of the line, or a slash.
pub open spec fn slash_step(s: Seq<char>, i: int) -> Step {
    if followed_by(s, i, '/') {
        Step { end: run_end(s, Run::Comment, i + 2), outcome: Outcome::Skip }
    } else {
        Step { end: i + 1, outcome: Outcome::Emit(Kind::Slash) }
    }
}

/// The step from an opening quote: the literal up to the closing quote, or
/// an error where the input ends first.
pub open spec fn string_step(s: Seq<char>, i: int) -> Step {
    let close = run_end(s, Run::Quoted, i + 1);
    if close < s.len() {
        Step { end: close + 1, outcome: Outcome::Emit(Kind::String(s.subrange(i + 1, close))) }
    } else {
        Step {
            end: s.len() as int,
            outcome: Outcome::Fail(
                ErrorView::UnterminatedString { line: line_at(s, s.len() as int) },
            ),
        }
    }
}

/// Where the numeric literal that starts at `i` ends: after its digits, and
/// after a fraction where a `.` and one more digit follow them.
pub open spec fn number_end(s: Seq<char>, i: int) -> int {
    let whole = run_end(s, Run::Digits, i);
    if whole + 1 < s.len() && s[whole] == '.' && decimal_digit(s[whole + 1]) {
        run_end(s, Run::Digits, whole + 1)
    } else {
        whole
    }
}

/// The step from a digit.
pub open spec fn number_step(s: Seq<char>, i: int) -> Step {
    let end = number_end(s, i);
    Step { end, outcome: Outcome::Emit(Kind::Number(s.subrange(i, end))) }
}

/// The kind of a word: reserved, or an identifier.
pub open spec fn word_kind(text: Seq<char>) -> Kind {
    match keyword_kind(text) {
        Some(kind) => kind,
        None => Kind::Identifier(text),
    }
}

/// The step from a letter or an underscore.
pub open spec fn word_step(s: Seq<char>, i: int) -> Step {
    let end = run_end(s, Run::Word, i + 1);
    Step { end, outcome: Outcome::Emit(word_kind(s.subrange(i, end))) }
}

/// The step over one character that is a token by itself.
pub open spec fn single(i: int, kind: Kind) -> Step {
    Step { end: i + 1, outcome: Outcome::Emit(kind) }
}

/// Whether `c` can begin a lexeme or a piece of insignificant text.
pub open spec fn expected(c: char) -> bool {
    c == '(' || c == ')' || c == '{' || c == '}' || c == ',' || c == '.' || c == '+' || c == '-'
        || c == '*' || c == ';' || c == '!' || c == '=' || c == '>' || c == '<' || c == '/'
        || whitespace(c) || c == '"' || decimal_digit(c) || word_start(c)
}

/// The step that the scan takes at position `i` of `s`.
pub open spec fn step(s: Seq<char>, i: int) -> Step
    recommends
        0 <= i < s.len(),
{
    let c = s[i];
    if c == '(' {
        single(i, Kind::LeftParen)
    } else if c == ')' {
        single(i, Kind::RightParen)
    } else if c == '{' {
        single(i, Kind::LeftBrace)
    } else if c == '}' {
        single(i, Kind::RightBrace)
    } else if c == ',' {
        single(i, Kind::Comma)
    } else if c == '.' {
        single(i, Kind::Dot)
    } else if c == '+' {
        single(i, Kind::Plus)
    } else if c == '-' {
        single(i, Kind::Minus)
    } else if c == '*' {
        single(i, Kind::Star)
    } else if c == ';' {
        single(i, Kind::SemiColon)
    } else if c == '!' {
        operator_step(s, i, Kind::Bang, Kind::BangEqual)
    } else if c == '=' {
        operator_step(s, i, Kind::Assign, Kind::Equals)
    } else if c == '>' {
        operator_step(s, i, Kind::Greater, Kind::GreaterEqual)
    } else if c == '<' {
        operator_step(s, i, Kind::Less, Kind::LessEqual)
    } else if c == '/' {
        slash_step(s, i)
    } else if whitespace(c) {
        Step { end: i + 1, outcome: Outcome::Skip }
    } else if c == '"' {
        string_step(s, i)
    } else if decimal_digit(c) {
        number_step(s, i)
    } else if word_start(c) {
        word_step(s, i)
    } else {
        Step {
            end: i + 1,
            outcome: Outcome::Fail(
                ErrorView::UnexpectedCharacter { line: line_at(s, i), character: c },
            ),
        }
    }
}

/// A token's kind together with the stretch of source, from `start` up to
/// `end`, that it was cut from.
pub struct Lexeme {
    pub kind: Kind,
    pub start: int,
    pub end: int,
}

/// What a scan yields: the lexemes of its tokens and its errors, each in
/// source order.
pub struct Scan {
    pub lexemes: Seq<Lexeme>,
    pub errors: Seq<ErrorView>,
}

/// The end-of-input lexeme of `s`.
pub open spec fn end_of_input(s: Seq<char>) -> Lexeme {
    Lexeme { kind: Kind::Eof, start: s.len() as int, end: s.len() as int }
}

/// What the scan of `s` yields from position `i` on.
pub open spec fn scan_from(s: Seq<char>, i: int) -> Scan
    decreases s.len() - i,
    via scan_from_decreases
{
    if 0 <= i < s.len() {
        let here = step(s, i);
        let rest = scan_from(s, here.end);
        match here.outcome {
            Outcome::Emit(kind) => Scan {
                lexemes: seq![Lexeme { kind, start: i, end: here.end }] + rest.lexemes,
                errors: rest.errors,
            },
            Outcome::Skip => rest,
            Outcome::Fail(error) => Scan {
                lexemes: rest.lexemes,
                errors: seq![error] + rest.errors,
            },
        }
    } else {
        Scan { lexemes: seq![end_of_input(s)], errors: seq![] }
    }
}

#[via_fn]
proof fn scan_from_decreases(s: Seq<char>, i: int) {
    if 0 <= i < s.len() {
        lemma_step_advances(s, i);
    }
}

/// The lexemes of the tokens of `s`, in order.
pub open spec fn lexemes(s: Seq<char>) -> Seq<Lexeme> {
    scan_from(s, 0).lexemes
}

/// The token that a lexeme of `s` stands for: its kind, on the line where
/// its text starts.
pub open spec fn token_of(s: Seq<char>, lexeme: Lexeme) -> TokenView {
    TokenView { kind: lexeme.kind, line: line_at(s, lexeme.start) }
}

/// The tokens of `s`, in order.
pub open spec fn tokens(s: Seq<char>) -> Seq<TokenView> {
    lexemes(s).map_values(|lexeme: Lexeme| token_of(s, lexeme))
}

/// The lexical errors of `s`, in order.
pub open spec fn errors(s: Seq<char>) -> Seq<ErrorView> {
    scan_from(s, 0).errors
}

/// A run ends inside the text, holds only characters of its kind, and stops
/// at the first character that is not of its kind.
pub proof fn lemma_run_end(s: Seq<char>, run: Run, i: int)
    requires
        0 <= i <= s.len(),
    ensures
        i <= run_end(s, run, i) <= s.len(),
        forall|j: int| i <= j < run_end(s, run, i) ==> in_run(run, #[trigger] s[j]),
        run_end(s, run, i) < s.len() ==> !in_run(run, s[run_end(s, run, i)]),
    decreases s.len() - i,
{
    if i < s.len() && in_run(run, s[i]) {
        lemma_run_end(s, run, i + 1);
    }
}

/// The count of newlines never falls as the position moves right, and is
/// at most the number of characters passed.
pub proof fn lemma_newlines_monotonic(s: Seq<char>, i: int, j: int)
    requires
        0 <= i <= j,
    ensures
        newlines(s, i) <= newlines(s, j) <= newlines(s, i) + (j - i),
    decreases j - i,
{
    if i < j {
        lemma_newlines_monotonic(s, i, j - 1);
    }
}

/// Over a stretch without newline characters the count of newlines stays.
pub proof fn lemma_newlines_steady(s: Seq<char>, i: int, j: int)
    requires
        0 <= i <= j,
        forall|k: int| i <= k < j ==> #[trigger] s[k] != '\n',
    ensures
        newlines(s, j) == newlines(s, i),
    decreases j - i,
{
    if i < j {
        lemma_newlines_steady(s, i, j - 1);
    }
}

/// Every step consumes at least one character and stays inside the text.
pub proof fn lemma_step_advances(s: Seq<char>, i: int)
    requires
        0 <= i < s.len(),
    ensures
        i < step(s, i).end <= s.len(),
{
    let c = s[i];
    if c == '/' {
        if followed_by(s, i, '/') {
            lemma_run_end(s, Run::Comment, i + 2);
        }
    } else if c == '"' {
        lemma_run_end(s, Run::Quoted, i + 1);
    } else if decimal_digit(c) {
        lemma_run_end(s, Run::Digits, i + 1);
        let whole = run_end(s, Run::Digits, i);
        assert(whole == run_end(s, Run::Digits, i + 1));
        if whole + 1 < s.len() {
            lemma_run_end(s, Run::Digits, whole + 1);
        }
    } else if word_start(c) {
        lemma_run_end(s, Run::Word, i + 1);
    }
}

} // verus!
