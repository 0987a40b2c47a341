//! Lexical errors: what the scanner reports without stopping.

use vstd::prelude::*;
use crate::chars::{decimal, push_decimal};

verus! {

/// A violation of the lexical grammar. It never stops a scan, and must keep
/// the caller from running what was scanned.
#[derive(Debug, Clone, Copy, PartialEq, Eq)]
pub enum LexicalError {
    /// A character that starts no lexeme, with the line it stands on.
    UnexpectedCharacter { line: usize, character: char },
    /// A string literal that the end of input cut short, with the line on
    /// which the input ended.
    UnterminatedString { line: usize },
}

/// The mathematical value of a [`LexicalError`].
pub enum ErrorView {
    UnexpectedCharacter { line: int, character: char },
    UnterminatedString { line: int },
}

impl View for LexicalError {
    type V = ErrorView;

    open spec fn view(&self) -> ErrorView {
        match self {
            LexicalError::UnexpectedCharacter { line, character } => ErrorView::UnexpectedCharacter {
                line: *line as int,
                character: *character,
            },
            LexicalError::UnterminatedString { line } => ErrorView::UnterminatedString {
                line: *line as int,
            },
        }
    }
}

impl ErrorView {
    /// The line on which the error was detected.
    pub open spec fn line(self) -> int {
        match self {
            ErrorView::UnexpectedCharacter { line, .. } => line,
            ErrorView::UnterminatedString { line } => line,
        }
    }

    /// What the error says to a reader.
    pub open spec fn message(self) -> Seq<char> {
        match self {
            ErrorView::UnexpectedCharacter { character, .. } => "Unexpected character. '"@
                + seq![character] + " "@,
            ErrorView::UnterminatedString { .. } => "Unterminated string."@,
        }
    }

    /// The diagnostic line for the error: its line, the word `Error`, the
    /// place `location` (empty while no parser has given one) and the
    /// message.
    pub open spec fn report(self, location: Seq<char>) -> Seq<char> {
        "[line "@ + decimal(self.line() as nat) + "] Error "@ + location + ": "@ + self.message()
    }
}

impl LexicalError {
    /// The line on which the error was detected.
    pub fn line(&self) -> (line: usize)
        ensures
            line == self@.line(),
    {
        match self {
            LexicalError::UnexpectedCharacter { line, .. } => *line,
            LexicalError::UnterminatedString { line } => *line,
        }
    }

    /// What the error says to a reader.
    pub fn message(&self) -> (text: String)
        ensures
            text@ == self@.message(),
    {
        match self {
            LexicalError::UnexpectedCharacter { character, .. } => {
                let mut text = String::from_str("Unexpected character. '");
                text.push(*character);
                text.append(" ");
                text
            },
            LexicalError::UnterminatedString { .. } => String::from_str("Unterminated string."),
        }
    }

    /// The diagnostic line for the error, as it is shown to a user:
    /// `[line 3] Error : Unterminated string.` where `location` is empty.
    pub fn report(&self, location: &str) -> (text: String)
        ensures
            text@ == self@.report(location@),
    {
        let mut text = String::from_str("[line ");
        push_decimal(&mut text, self.line());
        text.append("] Error ");
        text.append(location);
        text.append(": ");
        let message = self.message();
        text.append(message.as_str());
        assert(text@ =~= self@.report(location@));
        text
    }
}

/// The views of a sequence of errors, in order.
pub open spec fn error_views(errors: Seq<LexicalError>) -> Seq<ErrorView> {
    errors.map_values(|e: LexicalError| e@)
}

} // verus!
