//! The reserved words: a fixed table from text to token kind.

use vstd::prelude::*;
use crate::chars::same_text;
use crate::token::{Kind, TokenKind};

verus! {

/// The kind that `text` is reserved for, if it is a reserved word.
pub open spec fn keyword_kind(text: Seq<char>) -> Option<Kind> {
    if text == "and"@ {
        Some(Kind::And)
    } else if text == "class"@ {
        Some(Kind::Class)
    } else if text == "else"@ {
        Some(Kind::Else)
    } else if text == "false"@ {
        Some(Kind::False)
    } else if text == "for"@ {
        Some(Kind::For)
    } else if text == "fun"@ {
        Some(Kind::Fun)
    } else if text == "if"@ {
        Some(Kind::If)
    } else if text == "nil"@ {
        Some(Kind::Nil)
    } else if text == "or"@ {
        Some(Kind::Or)
    } else if text == "print"@ {
        Some(Kind::Print)
    } else if text == "return"@ {
        Some(Kind::Return)
    } else if text == "super"@ {
        Some(Kind::Super)
    } else if text == "this"@ {
        Some(Kind::This)
    } else if text == "true"@ {
        Some(Kind::True)
    } else if text == "var"@ {
        Some(Kind::Var)
    } else if text == "while"@ {
        Some(Kind::While)
    } else {
        None
    }
}

/// Looks `text` up among the reserved words.
pub fn keyword(text: &String) -> (found: Option<TokenKind>)
    ensures
        match found {
            Some(kind) => keyword_kind(text@) == Some(kind@),
            None => keyword_kind(text@) is None,
        },
{
    let text = text.as_str();
    if same_text(text, "and") {
        Some(TokenKind::And)
    } else if same_text(text, "class") {
        Some(TokenKind::Class)
    } else if same_text(text, "else") {
        Some(TokenKind::Else)
    } else if same_text(text, "false") {
        Some(TokenKind::False)
    } else if same_text(text, "for") {
        Some(TokenKind::For)
    } else if same_text(text, "fun") {
        Some(TokenKind::Fun)
    } else if same_text(text, "if") {
        Some(TokenKind::If)
    } else if same_text(text, "nil") {
        Some(TokenKind::Nil)
    } else if same_text(text, "or") {
        Some(TokenKind::Or)
    } else if same_text(text, "print") {
        Some(TokenKind::Print)
    } else if same_text(text, "return") {
        Some(TokenKind::Return)
    } else if same_text(text, "super") {
        Some(TokenKind::Super)
    } else if same_text(text, "this") {
        Some(TokenKind::This)
    } else if same_text(text, "true") {
        Some(TokenKind::True)
    } else if same_text(text, "var") {
        Some(TokenKind::Var)
    } else if same_text(text, "while") {
        Some(TokenKind::While)
    } else {
        None
    }
}

} // verus!
