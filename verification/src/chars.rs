//! Character classes and text helpers.

use vstd::prelude::*;

verus! {

/// What `char::is_alphabetic` answers for `c`: whether `c` has the Unicode
/// `Alphabetic` property. Which characters have it is not stated here.
pub uninterp spec fn alphabetic(c: char) -> bool;

/// What `char::is_alphanumeric` answers for `c`: whether `c` is alphabetic
/// or numeric in the sense of Unicode. Which characters are is not stated
/// here.
pub uninterp spec fn alphanumeric(c: char) -> bool;

/// Believed, not proved: `char::is_alphabetic` of the standard library
/// depends on the character alone, and its answer is what [`alphabetic`]
/// names.
pub assume_specification[ std::primitive::char::is_alphabetic ](c: char) -> (r: bool)
    ensures
        r == alphabetic(c),
;

/// Believed, not proved: `char::is_alphanumeric` of the standard library
/// depends on the character alone, and its answer is what [`alphanumeric`]
/// names. Its documentation says that it holds of a character that is
/// alphabetic or numeric, so it holds of every alphabetic one.
pub assume_specification[ std::primitive::char::is_alphanumeric ](c: char) -> (r: bool)
    ensures
        r == alphanumeric(c),
        alphabetic(c) ==> r,
;

/// Believed, not proved: `String::push` of the standard library appends the
/// character to the end of the string and changes nothing else of it.
pub assume_specification[ std::string::String::push ](s: &mut std::string::String, c: char)
    ensures
        final(s)@ == old(s)@.push(c),
;

/// Whether `c` is one of the decimal digits `0` to `9`.
pub open spec fn decimal_digit(c: char) -> bool {
    '0' <= c <= '9'
}

/// The characters that separate tokens and mean nothing else.
pub open spec fn whitespace(c: char) -> bool {
    c == ' ' || c == '\r' || c == '\t' || c == '\n'
}

/// Whether an identifier or a reserved word may begin with `c`.
pub open spec fn word_start(c: char) -> bool {
    alphabetic(c) || c == '_'
}

/// Whether an identifier or a reserved word may go on with `c`.
pub open spec fn word_part(c: char) -> bool {
    alphanumeric(c) || c == '_'
}

/// Tells whether a word may begin with `c`, given whether `c` is
/// alphabetic: letters and the underscore begin words.
pub fn starts_word(c: char, alphabetic: bool) -> (starts: bool)
    ensures
        starts == (alphabetic || c == '_'),
{
    alphabetic || c == '_'
}

/// Tells whether a word may go on with the character `ch`, if there is one,
/// given whether it is alphanumeric: letters, digits and the underscore
/// continue words.
pub fn continues_word(ch: Option<char>, alphanumeric: bool) -> (continues: bool)
    ensures
        continues == (ch matches Some(c) && (alphanumeric || c == '_')),
{
    match ch {
        Some(c) => alphanumeric || c == '_',
        None => false,
    }
}

/// Tells whether the character, if there is one, is a decimal digit.
pub fn is_digit(ch: Option<char>) -> (r: bool)
    ensures
        r == (ch matches Some(c) && decimal_digit(c)),
{
    match ch {
        Some(c) => '0' <= c && c <= '9',
        None => false,
    }
}

/// Tells whether the character, if there is one, is alphanumeric. Every
/// alphabetic character is.
pub fn is_alphanumeric(ch: Option<char>) -> (r: bool)
    ensures
        r == (ch matches Some(c) && alphanumeric(c)),
        ch matches Some(c) && alphabetic(c) ==> r,
{
    match ch {
        Some(c) => c.is_alphanumeric(),
        None => false,
    }
}

/// The text of `source` from `start` up to `end`, as a string.
pub fn text_of(source: &Vec<char>, start: usize, end: usize) -> (text: String)
    requires
        start <= end <= source.len(),
    ensures
        text@ == source@.subrange(start as int, end as int),
{
    let mut text = String::new();
    let mut i: usize = start;
    while i < end
        invariant
            start <= i <= end <= source.len(),
            text@ == source@.subrange(start as int, i as int),
        decreases end - i,
    {
        text.push(source[i]);
        i += 1;
    }
    text
}

/// The character that stands for the digit `d`.
pub open spec fn digit_char(d: int) -> char {
    if d == 0 {
        '0'
    } else if d == 1 {
        '1'
    } else if d == 2 {
        '2'
    } else if d == 3 {
        '3'
    } else if d == 4 {
        '4'
    } else if d == 5 {
        '5'
    } else if d == 6 {
        '6'
    } else if d == 7 {
        '7'
    } else if d == 8 {
        '8'
    } else {
        '9'
    }
}

/// The decimal numeral of `n`, without leading zeros.
pub open spec fn decimal(n: nat) -> Seq<char>
    decreases n,
{
    if n < 10 {
        seq![digit_char(n as int)]
    } else {
        decimal(n / 10).push(digit_char((n % 10) as int))
    }
}

/// The character that stands for the digit `d`.
pub fn digit(d: usize) -> (c: char)
    requires
        d < 10,
    ensures
        c == digit_char(d as int),
{
    match d {
        0 => '0',
        1 => '1',
        2 => '2',
        3 => '3',
        4 => '4',
        5 => '5',
        6 => '6',
        7 => '7',
        8 => '8',
        _ => '9',
    }
}

/// Appends the decimal numeral of `n` to `text`.
pub fn push_decimal(text: &mut String, n: usize)
    ensures
        final(text)@ == old(text)@ + decimal(n as nat),
    decreases n,
{
    if n >= 10 {
        push_decimal(text, n / 10);
    }
    text.push(digit(n % 10));
    assert(text@ =~= old(text)@ + decimal(n as nat));
}

/// Tells whether two pieces of text hold the same characters.
pub fn same_text(a: &str, b: &str) -> (same: bool)
    ensures
        same == (a@ == b@),
{
    let n = a.unicode_len();
    if n != b.unicode_len() {
        return false;
    }
    let mut i: usize = 0;
    while i < n
        invariant
            i <= n,
            n == a@.len(),
            n == b@.len(),
            forall|j: int| 0 <= j < i ==> a@[j] == b@[j],
        decreases n - i,
    {
        if a.get_char(i) != b.get_char(i) {
            return false;
        }
        i += 1;
    }
    assert(a@ =~= b@);
    true
}

} // verus!
