//! What holds of every scan: theorems about the grammar, and so about the
//! scanner, whose results are the grammar's.

use vstd::prelude::*;
use crate::chars::{alphabetic, alphanumeric, decimal_digit, whitespace, word_part, word_start};
use crate::error::{error_views, ErrorView, LexicalError};
use crate::grammar::{
    end_of_input, errors, expected, in_run, lemma_newlines_monotonic, lemma_newlines_steady,
    lemma_run_end, lemma_step_advances, lexemes, line_at, newlines, run_end, scan_from, step,
    token_of, tokens, Lexeme, Outcome, Run,
};
use crate::keyword::keyword_kind;
use crate::token::{spelling, token_views, Kind, Token, TokenView};

verus! {

/// Two slashes in a row stand at position `j`, before position `to`.
pub open spec fn opens_comment(s: Seq<char>, j: int, to: int) -> bool {
    0 <= j && j + 1 < to <= s.len() && s[j] == '/' && s[j + 1] == '/'
}

/// No newline character stands from `from` up to `to`.
pub open spec fn no_newline(s: Seq<char>, from: int, to: int) -> bool {
    forall|k: int| from <= k < to ==> #[trigger] s[k] != '\n'
}

/// Within the stretch of `s` from `from` up to `to`, the character at `x`
/// is whitespace or part of a comment: two slashes open one at or before
/// `x`, with no newline from there through `x`.
pub open spec fn insignificant(s: Seq<char>, from: int, to: int, x: int) -> bool {
    whitespace(s[x]) || exists|j: int|
        from <= j <= x && #[trigger] opens_comment(s, j, to) && no_newline(s, j, x + 1)
}

/// The stretch of `s` from `from` up to `to` holds only whitespace and
/// comments.
pub open spec fn blank(s: Seq<char>, from: int, to: int) -> bool {
    forall|x: int| from <= x < to ==> #[trigger] insignificant(s, from, to, x)
}

/// The lexeme lies inside `s`, and the text it covers is what its kind is
/// written as. Only the end-of-input lexeme is empty; it stands at the end.
pub open spec fn cut_from(s: Seq<char>, lexeme: Lexeme) -> bool {
    &&& 0 <= lexeme.start <= lexeme.end <= s.len()
    &&& s.subrange(lexeme.start, lexeme.end) == spelling(lexeme.kind)
    &&& if lexeme.kind is Eof {
        lexeme == end_of_input(s)
    } else {
        lexeme.start < lexeme.end
    }
}

/// The lexeme is what one step of the grammar yields at its start.
pub open spec fn stepped(s: Seq<char>, lexeme: Lexeme) -> bool {
    &&& 0 <= lexeme.start < s.len()
    &&& step(s, lexeme.start).end == lexeme.end
    &&& step(s, lexeme.start).outcome == Outcome::Emit(lexeme.kind)
}

/// Where the text before the `k`-th of `found` begins, in a scan from `i`:
/// at the end of the lexeme before it, or at `i` for the first.
pub open spec fn gap_start(found: Seq<Lexeme>, i: int, k: int) -> int {
    if k <= 0 {
        i
    } else {
        found[k - 1].end
    }
}

/// A step that yields a token covers exactly the text that the token's
/// kind is written as, and that kind is never end of input.
pub proof fn lemma_step_spells(s: Seq<char>, i: int)
    requires
        0 <= i < s.len(),
    ensures
        step(s, i).outcome matches Outcome::Emit(kind) ==> {
            &&& kind !is Eof
            &&& s.subrange(i, step(s, i).end) == spelling(kind)
            &&& !whitespace(s[i])
        },
{
    lemma_step_advances(s, i);
    let c = s[i];
    let end = step(s, i).end;
    if let Outcome::Emit(kind) = step(s, i).outcome {
        if c == '"' {
            lemma_run_end(s, Run::Quoted, i + 1);
            let close = run_end(s, Run::Quoted, i + 1);
            assert(s.subrange(i, end) =~= seq!['"'] + s.subrange(i + 1, close) + seq!['"']);
        } else if c == '/' || c == '!' || c == '=' || c == '<' || c == '>' {
            if end == i + 2 {
                assert(s.subrange(i, end) =~= seq![c, '=']);
            } else {
                assert(s.subrange(i, end) =~= seq![c]);
            }
        } else if decimal_digit(c) {
        } else if word_start(c) {
        } else {
            assert(s.subrange(i, end) =~= seq![c]);
        }
    }
}

/// A step that yields nothing lengthens the blank stretch that follows it.
pub proof fn lemma_blank_after_skip(s: Seq<char>, i: int, to: int)
    requires
        0 <= i < s.len(),
        step(s, i).outcome is Skip,
        step(s, i).end <= to <= s.len(),
        blank(s, step(s, i).end, to),
    ensures
        blank(s, i, to),
{
    let end = step(s, i).end;
    lemma_step_advances(s, i);
    assert forall|x: int| i <= x < to implies #[trigger] insignificant(s, i, to, x) by {
        if x < end {
            if !whitespace(s[i]) {
                lemma_run_end(s, Run::Comment, i + 2);
                assert(opens_comment(s, i, to));
                assert(no_newline(s, i, x + 1));
            }
        } else {
            assert(insignificant(s, end, to, x));
            if !whitespace(s[x]) {
                let j = choose|j: int|
                    end <= j <= x && #[trigger] opens_comment(s, j, to) && no_newline(s, j, x + 1);
                assert(opens_comment(s, j, to));
            }
        }
    }
}

/// The shape of what a scan from `i` yields: its lexemes end in the one
/// end-of-input lexeme, each is cut from the source at or after `i`, each
/// but the last is one step of the grammar, they stand in source order
/// without overlap, and where no error is reported the text before each of
/// them is blank.
pub proof fn lemma_scan_from_shape(s: Seq<char>, i: int)
    requires
        0 <= i <= s.len(),
    ensures
        ({
            let found = scan_from(s, i).lexemes;
            &&& found.len() >= 1
            &&& found.last() == end_of_input(s)
            &&& forall|k: int|
                0 <= k < found.len() ==> i <= (#[trigger] found[k]).start && cut_from(s, found[k])
            &&& forall|k: int|
                0 <= k < found.len() - 1 ==> (#[trigger] found[k]).kind !is Eof && stepped(
                    s,
                    found[k],
                )
            &&& forall|j: int, k: int|
                0 <= j < k < found.len() ==> (#[trigger] found[j]).end <= (#[trigger] found[k]).start
            &&& scan_from(s, i).errors.len() == 0 ==> forall|k: int|
                0 <= k < found.len() ==> blank(s, gap_start(found, i, k), #[trigger] found[k].start)
        }),
    decreases s.len() - i,
{
    let found = scan_from(s, i).lexemes;
    if i < s.len() {
        let here = step(s, i);
        let rest = scan_from(s, here.end);
        lemma_step_advances(s, i);
        lemma_step_spells(s, i);
        lemma_scan_from_shape(s, here.end);
        match here.outcome {
            Outcome::Emit(kind) => {
                let first = Lexeme { kind, start: i, end: here.end };
                assert(found == seq![first] + rest.lexemes);
                assert(forall|k: int| 1 <= k < found.len() ==> found[k] == rest.lexemes[k - 1]);
                assert(found[0] == first);
                assert(cut_from(s, first));
                if scan_from(s, i).errors.len() == 0 {
                    assert forall|k: int| 0 <= k < found.len() implies blank(
                        s,
                        gap_start(found, i, k),
                        #[trigger] found[k].start,
                    ) by {
                        if k == 0 {
                        } else {
                            assert(found[k] == rest.lexemes[k - 1]);
                            assert(gap_start(found, i, k) == gap_start(
                                rest.lexemes,
                                here.end,
                                k - 1,
                            ));
                        }
                    }
                }
            },
            Outcome::Skip => {
                if scan_from(s, i).errors.len() == 0 {
                    assert forall|k: int| 0 <= k < found.len() implies blank(
                        s,
                        gap_start(found, i, k),
                        #[trigger] found[k].start,
                    ) by {
                        if k == 0 {
                            lemma_blank_after_skip(s, i, found[0].start);
                        } else {
                            assert(gap_start(found, i, k) == gap_start(found, here.end, k));
                        }
                    }
                }
            },
            Outcome::Fail(error) => {
                assert(scan_from(s, i).errors == seq![error] + rest.errors);
            },
        }
    } else {
        assert(cut_from(s, end_of_input(s))) by {
            assert(s.subrange(s.len() as int, s.len() as int) =~= Seq::<char>::empty());
        }
    }
}

/// No comment that opens before `i` reaches `i`.
spec fn clear(s: Seq<char>, i: int) -> bool {
    i >= s.len() || s[i] == '\n' || forall|j: int|
        0 <= j < i && #[trigger] opens_comment(s, j, s.len() as int) ==> newlines(s, j) < newlines(
            s,
            i,
        )
}

/// In a blank source, a scan from a position that no earlier comment
/// reaches yields the end-of-input lexeme and nothing else.
proof fn lemma_blank_scan(s: Seq<char>, i: int)
    requires
        0 <= i <= s.len(),
        blank(s, 0, s.len() as int),
        clear(s, i),
    ensures
        scan_from(s, i).lexemes == seq![end_of_input(s)],
        scan_from(s, i).errors == Seq::<ErrorView>::empty(),
    decreases s.len() - i,
{
    let len = s.len() as int;
    if i < len {
        let c = s[i];
        assert(insignificant(s, 0, len, i));
        lemma_step_advances(s, i);
        if whitespace(c) {
            assert(clear(s, i + 1)) by {
                if i + 1 < len && s[i + 1] != '\n' {
                    assert forall|j: int|
                        0 <= j < i + 1 && #[trigger] opens_comment(s, j, len) implies newlines(s, j)
                        < newlines(s, i + 1) by {
                        lemma_newlines_monotonic(s, j, i);
                    }
                }
            }
            lemma_blank_scan(s, i + 1);
        } else {
            let j = choose|j: int|
                0 <= j <= i && #[trigger] opens_comment(s, j, len) && no_newline(s, j, i + 1);
            lemma_newlines_steady(s, j, i + 1);
            lemma_newlines_monotonic(s, j, i);
            lemma_newlines_monotonic(s, i, i + 1);
            assert(j == i);
            lemma_run_end(s, Run::Comment, i + 2);
            lemma_blank_scan(s, run_end(s, Run::Comment, i + 2));
        }
    }
}

/// A source holds only whitespace and comments exactly if its scan yields
/// the end-of-input token alone and reports no error.
pub proof fn lemma_blank_source(s: Seq<char>)
    ensures
        blank(s, 0, s.len() as int) <==> lexemes(s) == seq![end_of_input(s)] && errors(s).len()
            == 0,
        blank(s, 0, s.len() as int) <==> tokens(s) == seq![
            TokenView { kind: Kind::Eof, line: line_at(s, s.len() as int) },
        ] && errors(s).len() == 0,
{
    lemma_scan_from_shape(s, 0);
    if blank(s, 0, s.len() as int) {
        lemma_blank_scan(s, 0);
    }
    if tokens(s).len() == 1 {
        assert(lexemes(s) =~= seq![end_of_input(s)]);
        assert(tokens(s) =~= seq![token_of(s, end_of_input(s))]);
    }
}

/// The token sequence of every source, whatever errors it holds, ends in
/// the end-of-input token, and holds no other.
pub proof fn lemma_end_of_input_is_last(s: Seq<char>)
    ensures
        tokens(s).len() >= 1,
        tokens(s).last() == (TokenView { kind: Kind::Eof, line: line_at(s, s.len() as int) }),
        forall|k: int| 0 <= k < tokens(s).len() - 1 ==> (#[trigger] tokens(s)[k]).kind !is Eof,
{
    lemma_scan_from_shape(s, 0);
}

/// Every token but the last is what one step of the grammar yields at the
/// place where its text starts: the longest lexeme that starts there.
pub proof fn lemma_tokens_are_steps(s: Seq<char>)
    ensures
        tokens(s).len() == lexemes(s).len(),
        forall|k: int|
            0 <= k < lexemes(s).len() ==> #[trigger] tokens(s)[k] == token_of(s, lexemes(s)[k]),
        forall|k: int| 0 <= k < lexemes(s).len() - 1 ==> stepped(s, #[trigger] lexemes(s)[k]),
{
    lemma_scan_from_shape(s, 0);
}

/// The kinds of the reserved words.
pub open spec fn reserved(kind: Kind) -> bool {
    match kind {
        Kind::And
        | Kind::Class
        | Kind::Else
        | Kind::False
        | Kind::For
        | Kind::Fun
        | Kind::If
        | Kind::Nil
        | Kind::Or
        | Kind::Print
        | Kind::Return
        | Kind::Super
        | Kind::This
        | Kind::True
        | Kind::Var
        | Kind::While => true,
        _ => false,
    }
}

/// The table of reserved words and their spelling are each other's
/// inverse: a text is reserved for a kind exactly if that kind is a reserved
/// word and is written as that text. So no entry of the table hides
/// another.
pub proof fn lemma_reserved_words(text: Seq<char>, kind: Kind)
    ensures
        keyword_kind(text) == Some(kind) <==> reserved(kind) && text == spelling(kind),
{
    reveal_strlit("and");
    reveal_strlit("class");
    reveal_strlit("else");
    reveal_strlit("false");
    reveal_strlit("for");
    reveal_strlit("fun");
    reveal_strlit("if");
    reveal_strlit("nil");
    reveal_strlit("or");
    reveal_strlit("print");
    reveal_strlit("return");
    reveal_strlit("super");
    reveal_strlit("this");
    reveal_strlit("true");
    reveal_strlit("var");
    reveal_strlit("while");
    assert("and"@.len() == 3 && "and"@[0] == 'a');
    assert("class"@.len() == 5 && "class"@[0] == 'c');
    assert("else"@.len() == 4 && "else"@[0] == 'e');
    assert("false"@.len() == 5 && "false"@[0] == 'f');
    assert("for"@.len() == 3 && "for"@[0] == 'f' && "for"@[1] == 'o');
    assert("fun"@.len() == 3 && "fun"@[0] == 'f' && "fun"@[1] == 'u');
    assert("if"@.len() == 2 && "if"@[0] == 'i');
    assert("nil"@.len() == 3 && "nil"@[0] == 'n');
    assert("or"@.len() == 2 && "or"@[0] == 'o');
    assert("print"@.len() == 5 && "print"@[0] == 'p');
    assert("return"@.len() == 6);
    assert("super"@.len() == 5 && "super"@[0] == 's');
    assert("this"@.len() == 4 && "this"@[0] == 't' && "this"@[1] == 'h');
    assert("true"@.len() == 4 && "true"@[0] == 't' && "true"@[1] == 'r');
    assert("var"@.len() == 3 && "var"@[0] == 'v');
    assert("while"@.len() == 5 && "while"@[0] == 'w');
}

/// The text holds decimal digits only, and at least one.
pub open spec fn digits(text: Seq<char>) -> bool {
    text.len() >= 1 && forall|i: int| 0 <= i < text.len() ==> decimal_digit(#[trigger] text[i])
}

/// The text is a decimal numeral: digits, or digits, one `.` and digits.
pub open spec fn numeral(text: Seq<char>) -> bool {
    digits(text) || exists|dot: int|
        0 < dot < text.len() - 1 && #[trigger] text[dot] == '.' && digits(text.subrange(0, dot))
            && digits(text.subrange(dot + 1, text.len() as int))
}

/// The text is a word: a letter or an underscore, then letters, digits and
/// underscores.
pub open spec fn word(text: Seq<char>) -> bool {
    &&& text.len() >= 1
    &&& word_start(text[0])
    &&& forall|i: int| 1 <= i < text.len() ==> word_part(#[trigger] text[i])
}

/// Where the first character of a word is alphanumeric if it is
/// alphabetic, as the standard library documents of every character, each
/// character of the word is alphanumeric or an underscore.
pub proof fn lemma_word_characters(text: Seq<char>)
    ensures
        word(text) && (alphabetic(text[0]) ==> alphanumeric(text[0])) ==> forall|i: int|
            0 <= i < text.len() ==> word_part(#[trigger] text[i]),
{
}

/// The lexeme could not be longer: what follows it in `s` would not have
/// continued it.
pub open spec fn longest(s: Seq<char>, lexeme: Lexeme) -> bool {
    let next = lexeme.end;
    match lexeme.kind {
        Kind::Bang | Kind::Assign | Kind::Greater | Kind::Less => !(next < s.len() && s[next]
            == '='),
        Kind::Slash => !(next < s.len() && s[next] == '/'),
        Kind::Number(text) => {
            &&& next < s.len() ==> !decimal_digit(s[next])
            &&& digits(text) && next + 1 < s.len() && s[next] == '.' ==> !decimal_digit(
                s[next + 1],
            )
        },
        kind => (kind is Identifier || reserved(kind)) ==> !(next < s.len() && word_part(s[next])),
    }
}

/// The lexeme's kind is the right one for its text: a literal carries the
/// text it was cut from, which has the literal's form; a word is reserved
/// exactly if the table of reserved words holds it.
pub open spec fn classified(s: Seq<char>, lexeme: Lexeme) -> bool {
    let text = s.subrange(lexeme.start, lexeme.end);
    match lexeme.kind {
        Kind::String(value) => {
            &&& text == seq!['"'] + value + seq!['"']
            &&& forall|i: int| 0 <= i < value.len() ==> #[trigger] value[i] != '"'
        },
        Kind::Number(lexeme_text) => lexeme_text == text && numeral(text),
        Kind::Identifier(name) => name == text && word(text) && keyword_kind(text) is None,
        kind => reserved(kind) ==> word(text) && keyword_kind(text) == Some(kind),
    }
}

/// What a step yields is the longest lexeme that starts at its place, and
/// is classified by its whole text.
pub proof fn lemma_step_is_longest(s: Seq<char>, i: int)
    requires
        0 <= i < s.len(),
    ensures
        step(s, i).outcome matches Outcome::Emit(kind) ==> {
            let lexeme = Lexeme { kind, start: i, end: step(s, i).end };
            longest(s, lexeme) && classified(s, lexeme)
        },
{
    lemma_step_advances(s, i);
    lemma_step_spells(s, i);
    let c = s[i];
    let end = step(s, i).end;
    let text = s.subrange(i, end);
    let marks = c == '(' || c == ')' || c == '{' || c == '}' || c == ',' || c == '.' || c == '+'
        || c == '-' || c == '*' || c == ';' || c == '!' || c == '=' || c == '>' || c == '<' || c
        == '/' || whitespace(c);
    if marks {
    } else if c == '"' {
        lemma_run_end(s, Run::Quoted, i + 1);
    } else if decimal_digit(c) {
        let whole = run_end(s, Run::Digits, i);
        lemma_run_end(s, Run::Digits, i);
        if whole + 1 < s.len() && s[whole] == '.' && decimal_digit(s[whole + 1]) {
            lemma_run_end(s, Run::Digits, whole + 1);
            let dot = whole - i;
            assert(text[dot] == '.');
            assert(digits(text.subrange(0, dot)));
            assert(digits(text.subrange(dot + 1, text.len() as int)));
            assert(!digits(text));
        } else {
            assert(digits(text));
        }
    } else if word_start(c) {
        lemma_run_end(s, Run::Word, i + 1);
        assert forall|k: int| 1 <= k < text.len() implies word_part(#[trigger] text[k]) by {
            assert(in_run(Run::Word, s[i + k]));
        }
    }
}

/// Longest match and precedence of reserved words, for every token but the
/// last: it could not have been longer, a numeric literal is a decimal
/// numeral, and a word is an identifier exactly if it is not reserved.
pub proof fn lemma_longest_match(s: Seq<char>)
    ensures
        forall|k: int|
            0 <= k < lexemes(s).len() - 1 ==> longest(s, #[trigger] lexemes(s)[k]) && classified(
                s,
                lexemes(s)[k],
            ),
{
    lemma_scan_from_shape(s, 0);
    assert forall|k: int| 0 <= k < lexemes(s).len() - 1 implies longest(
        s,
        #[trigger] lexemes(s)[k],
    ) && classified(s, lexemes(s)[k]) by {
        let lexeme = lexemes(s)[k];
        assert(stepped(s, lexeme));
        lemma_step_is_longest(s, lexeme.start);
    }
}

/// The text of `found`'s first `k` lexemes, each after the text that lies
/// before it.
pub open spec fn rebuilt(s: Seq<char>, found: Seq<Lexeme>, k: int) -> Seq<char>
    decreases k,
{
    if k <= 0 {
        Seq::empty()
    } else {
        rebuilt(s, found, k - 1) + s.subrange(gap_start(found, 0, k - 1), found[k - 1].start)
            + spelling(found[k - 1].kind)
    }
}

/// The lexemes of a source lie in it in order and without overlap, and each
/// covers the text that its kind is written as. Read in order, each after
/// the text that lies before it, they give the source back. Where the scan
/// reports no error, the text before each lexeme holds only whitespace and
/// comments: nothing else was left out, and no lexeme was dropped, repeated
/// or moved.
pub proof fn lemma_lexemes_rebuild_source(s: Seq<char>)
    ensures
        lexemes(s).len() >= 1,
        lexemes(s).last() == end_of_input(s),
        forall|k: int| 0 <= k < lexemes(s).len() ==> cut_from(s, #[trigger] lexemes(s)[k]),
        forall|j: int, k: int|
            0 <= j < k < lexemes(s).len() ==> (#[trigger] lexemes(s)[j]).end <= (
            #[trigger] lexemes(s)[k]).start,
        rebuilt(s, lexemes(s), lexemes(s).len() as int) == s,
        errors(s).len() == 0 ==> forall|k: int|
            0 <= k < lexemes(s).len() ==> blank(
                s,
                gap_start(lexemes(s), 0, k),
                #[trigger] lexemes(s)[k].start,
            ),
{
    lemma_scan_from_shape(s, 0);
    lemma_rebuilt_prefix(s, lexemes(s).len() as int);
    assert(s.subrange(0, s.len() as int) =~= s);
}

/// The first `k` lexemes, with the text before each, give back the source
/// up to the end of the last of them.
proof fn lemma_rebuilt_prefix(s: Seq<char>, k: int)
    requires
        0 <= k <= lexemes(s).len(),
    ensures
        0 <= gap_start(lexemes(s), 0, k) <= s.len(),
        rebuilt(s, lexemes(s), k) == s.subrange(0, gap_start(lexemes(s), 0, k)),
    decreases k,
{
    let found = lexemes(s);
    lemma_scan_from_shape(s, 0);
    if k > 0 {
        lemma_rebuilt_prefix(s, k - 1);
        let from = gap_start(found, 0, k - 1);
        let lexeme = found[k - 1];
        assert(cut_from(s, lexeme));
        if k - 1 > 0 {
            assert(found[k - 2].end <= found[k - 1].start);
        }
        assert(s.subrange(0, from) + s.subrange(from, lexeme.start) + s.subrange(
            lexeme.start,
            lexeme.end,
        ) =~= s.subrange(0, lexeme.end));
    } else {
        assert(s.subrange(0, 0) =~= Seq::<char>::empty());
    }
}

/// The line of each token is one more than the number of newline characters
/// before the start of its text, which is never itself a newline; and the
/// lines never fall from one token to the next.
pub proof fn lemma_lines(s: Seq<char>)
    ensures
        forall|k: int|
            0 <= k < tokens(s).len() ==> (#[trigger] tokens(s)[k]).line == 1 + newlines(
                s,
                lexemes(s)[k].start,
            ),
        forall|k: int|
            0 <= k < tokens(s).len() - 1 ==> s[(#[trigger] lexemes(s)[k]).start] != '\n'
                && newlines(s, lexemes(s)[k].start + 1) == newlines(s, lexemes(s)[k].start),
        forall|j: int, k: int|
            0 <= j <= k < tokens(s).len() ==> (#[trigger] tokens(s)[j]).line <= (
            #[trigger] tokens(s)[k]).line,
{
    lemma_scan_from_shape(s, 0);
    let found = lexemes(s);
    assert forall|k: int| 0 <= k < tokens(s).len() - 1 implies s[(#[trigger] found[k]).start]
        != '\n' && newlines(s, found[k].start + 1) == newlines(s, found[k].start) by {
        assert(stepped(s, found[k]));
        lemma_step_spells(s, found[k].start);
    }
    assert forall|j: int, k: int| 0 <= j <= k < tokens(s).len() implies (#[trigger] tokens(
        s,
    )[j]).line <= (#[trigger] tokens(s)[k]).line by {
        assert(cut_from(s, found[j]));
        assert(cut_from(s, found[k]));
        if j < k {
            assert(found[j].end <= found[k].start);
        }
        lemma_newlines_monotonic(s, found[j].start, found[k].start);
    }
}

/// The error is what the step at `p` fails with: a character there that
/// can begin nothing, on its line; or an opening quote there with no closing
/// quote after it, reported on the last line.
pub open spec fn failed_at(s: Seq<char>, p: int, error: ErrorView) -> bool {
    &&& 0 <= p < s.len()
    &&& step(s, p).outcome == Outcome::Fail(error)
    &&& match error {
        ErrorView::UnexpectedCharacter { line, character } => {
            &&& character == s[p]
            &&& !expected(character)
            &&& line == line_at(s, p)
        },
        ErrorView::UnterminatedString { line } => {
            &&& s[p] == '"'
            &&& forall|q: int| p < q < s.len() ==> #[trigger] s[q] != '"'
            &&& line == line_at(s, s.len() as int)
        },
    }
}

/// The error is the failure of a step at or after `from`.
pub open spec fn fails_from(s: Seq<char>, from: int, error: ErrorView) -> bool {
    exists|p: int| from <= p && #[trigger] failed_at(s, p, error)
}

/// A step that fails reports one of the two errors, as [`failed_at`] says.
pub proof fn lemma_step_fails(s: Seq<char>, i: int)
    requires
        0 <= i < s.len(),
    ensures
        step(s, i).outcome matches Outcome::Fail(error) ==> failed_at(s, i, error),
        step(s, i).outcome matches Outcome::Fail(error) ==> (error is UnterminatedString ==> step(
            s,
            i,
        ).end == s.len()),
        !expected(s[i]) ==> step(s, i).outcome is Fail,
{
    if s[i] == '"' {
        lemma_run_end(s, Run::Quoted, i + 1);
    }
}

/// The shape of the errors of a scan from `i`: each is the failure of a
/// step at or after `i`, their lines never fall, and only the last can be
/// an unterminated string.
pub proof fn lemma_errors_from_shape(s: Seq<char>, i: int)
    requires
        0 <= i <= s.len(),
    ensures
        ({
            let found = scan_from(s, i).errors;
            &&& forall|k: int| 0 <= k < found.len() ==> fails_from(s, i, #[trigger] found[k])
            &&& forall|k: int|
                0 <= k < found.len() ==> line_at(s, i) <= (#[trigger] found[k]).line() <= line_at(
                    s,
                    s.len() as int,
                )
            &&& forall|j: int, k: int|
                0 <= j <= k < found.len() ==> (#[trigger] found[j]).line() <= (
                #[trigger] found[k]).line()
            &&& forall|k: int|
                0 <= k < found.len() - 1 ==> (#[trigger] found[k]) is UnexpectedCharacter
        }),
    decreases s.len() - i,
{
    let found = scan_from(s, i).errors;
    if i < s.len() {
        let here = step(s, i);
        let rest = scan_from(s, here.end);
        lemma_step_advances(s, i);
        lemma_step_fails(s, i);
        lemma_errors_from_shape(s, here.end);
        lemma_newlines_monotonic(s, i, here.end);
        lemma_newlines_monotonic(s, i, s.len() as int);
        assert forall|k: int| 0 <= k < rest.errors.len() implies fails_from(
            s,
            i,
            #[trigger] rest.errors[k],
        ) by {
            let error = rest.errors[k];
            assert(fails_from(s, here.end, error));
            let p = choose|p: int| here.end <= p && #[trigger] failed_at(s, p, error);
            assert(i <= p && failed_at(s, p, error));
        }
        match here.outcome {
            Outcome::Fail(error) => {
                assert(found == seq![error] + rest.errors);
                assert(failed_at(s, i, error));
                assert(fails_from(s, i, error));
                assert forall|k: int| 0 <= k < found.len() implies fails_from(
                    s,
                    i,
                    #[trigger] found[k],
                ) by {
                    if k > 0 {
                        assert(found[k] == rest.errors[k - 1]);
                    }
                }
                assert forall|k: int| 0 <= k < found.len() implies line_at(s, i) <= (
                #[trigger] found[k]).line() <= line_at(s, s.len() as int) by {
                    if k > 0 {
                        assert(found[k] == rest.errors[k - 1]);
                    }
                }
                assert forall|j: int, k: int| 0 <= j <= k < found.len() implies (
                #[trigger] found[j]).line() <= (#[trigger] found[k]).line() by {
                    if j > 0 {
                        assert(found[j] == rest.errors[j - 1]);
                    }
                    if k > 0 {
                        assert(found[k] == rest.errors[k - 1]);
                    }
                }
                assert forall|k: int| 0 <= k < found.len() - 1 implies (
                #[trigger] found[k]) is UnexpectedCharacter by {
                    if k > 0 {
                        assert(found[k] == rest.errors[k - 1]);
                    }
                }
            },
            _ => {},
        }
    }
}

/// Every error of a source is the failure of one step of its scan: an
/// unexpected character on its line, or a string that the end of input cut
/// short. The errors stand in source order, so their lines never fall, and
/// only the last of them can be an unterminated string.
pub proof fn lemma_errors(s: Seq<char>)
    ensures
        forall|k: int| 0 <= k < errors(s).len() ==> fails_from(s, 0, #[trigger] errors(s)[k]),
        forall|j: int, k: int|
            0 <= j <= k < errors(s).len() ==> 1 <= (#[trigger] errors(s)[j]).line() <= (
            #[trigger] errors(s)[k]).line() <= line_at(s, s.len() as int),
        forall|k: int|
            0 <= k < errors(s).len() - 1 ==> (#[trigger] errors(s)[k]) is UnexpectedCharacter,
{
    lemma_errors_from_shape(s, 0);
}

/// Two scans of one source agree: whatever two results meet the scanner's
/// contract have the same tokens and the same errors.
pub proof fn lemma_scans_agree(
    s: Seq<char>,
    first: (Seq<Token>, Seq<LexicalError>),
    second: (Seq<Token>, Seq<LexicalError>),
)
    requires
        token_views(first.0) == tokens(s),
        error_views(first.1) == errors(s),
        token_views(second.0) == tokens(s),
        error_views(second.1) == errors(s),
    ensures
        first.0.len() == second.0.len(),
        forall|k: int| 0 <= k < first.0.len() ==> (#[trigger] first.0[k])@ == second.0[k]@,
        first.1.len() == second.1.len(),
        forall|k: int| 0 <= k < first.1.len() ==> (#[trigger] first.1[k]) == second.1[k],
{
    assert(token_views(first.0).len() == first.0.len());
    assert(token_views(second.0).len() == second.0.len());
    assert(error_views(first.1).len() == first.1.len());
    assert(error_views(second.1).len() == second.1.len());
    assert forall|k: int| 0 <= k < first.0.len() implies (#[trigger] first.0[k])@
        == second.0[k]@ by {
        assert(token_views(first.0)[k] == first.0[k]@);
        assert(token_views(second.0)[k] == second.0[k]@);
    }
    assert forall|k: int| 0 <= k < first.1.len() implies (#[trigger] first.1[k])
        == second.1[k] by {
        assert(error_views(first.1)[k] == first.1[k]@);
        assert(error_views(second.1)[k] == second.1[k]@);
    }
}

} // verus!
