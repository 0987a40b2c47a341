//! A lexical scanner for the Lox scripting language, verified with Verus.
//!
//! The scanner turns source text into an ordered sequence of tokens that
//! always ends in an end-of-input token, and collects lexical errors
//! rather than stopping at the first one.
//!
//! - [`scanner`] holds the scanner itself.
//! - [`token`] and [`error`] hold what it yields.
//! - [`grammar`] says, over sequences of characters, what the tokens and
//!   errors of a source are; the scanner is proved to yield exactly those.
//! - [`laws`] holds theorems about the grammar: what is true of every scan.
//! - [`keyword`] is the table of reserved words, and [`chars`] the character
//!   classes and text helpers.

pub mod chars;
pub mod error;
pub mod grammar;
pub mod keyword;
pub mod laws;
pub mod scanner;
pub mod token;
