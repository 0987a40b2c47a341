//! The scanner: one pass over the source, from text to tokens.

use vstd::prelude::*;
use crate::chars::{
    continues_word, decimal_digit, is_alphanumeric, is_digit, starts_word, text_of,
};
use crate::error::{error_views, LexicalError};
use crate::grammar::{
    errors, lemma_newlines_monotonic, lemma_step_advances, line_at, number_step, run_end,
    scan_from, step, string_step, token_of, tokens, word_step, Lexeme, Outcome, Run, Step,
};
use crate::keyword::keyword;
use crate::laws::lemma_end_of_input_is_last;
use crate::token::{token_views, Kind, Token, TokenKind, TokenView};

verus! {

/// A scanner over one piece of source text.
pub struct Scanner {
    source: Vec<char>,
    tokens: Vec<Token>,
    /// Where the lexeme under construction begins.
    start: usize,
    /// The scan head.
    current: usize,
    /// The line that the scan head is on.
    line: usize,
}

/// The tokens of `s` from position `i` on.
spec fn tokens_from(s: Seq<char>, i: int) -> Seq<TokenView> {
    scan_from(s, i).lexemes.map_values(|lexeme: Lexeme| token_of(s, lexeme))
}

impl Scanner {
    /// The text that this scanner reads.
    pub closed spec fn source(&self) -> Seq<char> {
        self.source@
    }

    /// The tokens that this scanner holds: those found so far in a pass,
    /// and none between passes.
    pub closed spec fn held(&self) -> Seq<Token> {
        self.tokens@
    }

    /// Where the lexeme under construction begins.
    pub closed spec fn start(&self) -> int {
        self.start as int
    }

    /// Where the scan head stands.
    pub closed spec fn current(&self) -> int {
        self.current as int
    }

    /// The line counter.
    pub closed spec fn line(&self) -> int {
        self.line as int
    }

    /// The cursor lies inside the source, and the line counter is the line
    /// of the scan head.
    spec fn inv(&self) -> bool {
        &&& self.start <= self.current <= self.source.len() < usize::MAX
        &&& self.line == line_at(self.source@, self.current as int)
    }

    /// `post` is `pre` after the step `step` from `pre.start`: the scan head
    /// stands at the step's end, and what the step yields has been appended
    /// or is returned.
    spec fn took(pre: Scanner, post: Scanner, result: Result<(), LexicalError>, step: Step) -> bool {
        &&& post.inv()
        &&& post.source == pre.source
        &&& post.start == pre.start
        &&& post.current == step.end
        &&& match step.outcome {
            Outcome::Emit(kind) => {
                &&& result is Ok
                &&& token_views(post.tokens@) == token_views(pre.tokens@).push(
                    TokenView { kind, line: line_at(pre.source@, pre.start as int) },
                )
            },
            Outcome::Skip => result is Ok && post.tokens == pre.tokens,
            Outcome::Fail(error) => {
                &&& result matches Err(e)
                &&& e@ == error
                &&& post.tokens == pre.tokens
            },
        }
    }

    /// A scanner over `source`, which must be shorter than `usize::MAX`
    /// characters: the line counter is a `usize`, and counts one more than
    /// the newlines. The new scanner holds no token, and stands before the
    /// first character, on line 1.
    pub fn new(source: Vec<char>) -> (scanner: Scanner)
        requires
            source.len() < usize::MAX,
        ensures
            scanner.source() == source@,
            scanner.held().len() == 0,
            scanner.start() == 0,
            scanner.current() == 0,
            scanner.line() == 1,
    {
        Scanner { source, tokens: Vec::new(), start: 0, current: 0, line: 1 }
    }

    /// One full pass over the source. Each call starts over at the first
    /// character and at line 1, and returns the tokens, which always end in
    /// the one end-of-input token, and the errors, both in source order. An
    /// error never ends the pass: scanning goes on after the text that the
    /// failed step consumed. The tokens leave the scanner with the result;
    /// the scanner is left at the end of the source, on its last line.
    pub fn scan_tokens(&mut self) -> (found: (Vec<Token>, Vec<LexicalError>))
        requires
            old(self).source().len() < usize::MAX,
        ensures
            final(self).source() == old(self).source(),
            token_views(found.0@) == tokens(old(self).source()),
            error_views(found.1@) == errors(old(self).source()),
            found.0@.len() >= 1,
            found.0@.last().kind is Eof,
            forall|k: int| 0 <= k < found.0@.len() - 1 ==> (#[trigger] found.0@[k]).kind !is Eof,
            final(self).held().len() == 0,
            final(self).start() == old(self).source().len(),
            final(self).current() == old(self).source().len(),
            final(self).line() == line_at(old(self).source(), old(self).source().len() as int),
    {
        let ghost s = self.source@;
        self.tokens = Vec::new();
        self.start = 0;
        self.current = 0;
        self.line = 1;
        let mut failures: Vec<LexicalError> = Vec::new();
        assert(token_views(self.tokens@) + tokens_from(s, 0) =~= tokens(s));
        assert(error_views(failures@) + scan_from(s, 0).errors =~= errors(s));
        while !self.is_at_end()
            invariant
                self.inv(),
                self.source@ == s,
                token_views(self.tokens@) + tokens_from(s, self.current as int) == tokens(s),
                error_views(failures@) + scan_from(s, self.current as int).errors == errors(s),
            decreases self.source.len() - self.current,
        {
            self.start = self.current;
            let ghost before = *self;
            let ghost reported = failures@;
            let ghost here = step(s, self.start as int);
            let ghost rest = scan_from(s, here.end);
            proof {
                lemma_step_advances(s, self.start as int);
            }
            match self.token() {
                Ok(_) => {},
                Err(e) => {
                    failures.push(e);
                    assert(error_views(failures@) =~= error_views(reported).push(e@));
                },
            }
            proof {
                match here.outcome {
                    Outcome::Emit(kind) => {
                        let lexeme = Lexeme { kind, start: before.start as int, end: here.end };
                        assert(tokens_from(s, before.start as int) =~= seq![token_of(s, lexeme)]
                            + tokens_from(s, here.end));
                        assert(token_views(self.tokens@) + tokens_from(s, here.end)
                            =~= token_views(before.tokens@) + tokens_from(
                            s,
                            before.start as int,
                        ));
                    },
                    Outcome::Skip => {},
                    Outcome::Fail(error) => {
                        assert(error_views(failures@) + rest.errors =~= error_views(reported)
                            + scan_from(s, before.start as int).errors);
                    },
                }
            }
        }
        self.start = self.current;
        let line = self.line;
        self.add_token(TokenKind::Eof, line);
        assert(tokens_from(s, self.current as int) =~= seq![
            TokenView { kind: Kind::Eof, line: line as int },
        ]);
        assert(token_views(self.tokens@) =~= tokens(s));
        assert(error_views(failures@) =~= errors(s));
        let mut found: Vec<Token> = Vec::new();
        core::mem::swap(&mut found, &mut self.tokens);
        proof {
            lemma_end_of_input_is_last(s);
            assert forall|k: int| 0 <= k < found@.len() implies (#[trigger] found@[k])@.kind
                == tokens(s)[k].kind by {
                assert(token_views(found@)[k] == found@[k]@);
            }
        }
        (found, failures)
    }

    /// Scans one lexeme, or passes over one piece of insignificant text,
    /// from the scan head on.
    fn token(&mut self) -> (result: Result<(), LexicalError>)
        requires
            old(self).inv(),
            old(self).start == old(self).current,
            old(self).current < old(self).source.len(),
        ensures
            Self::took(
                *old(self),
                *final(self),
                result,
                step(old(self).source@, old(self).start as int),
            ),
    {
        let ghost s = self.source@;
        let ghost first = self.start as int;
        let line = self.line;
        let c = self.advance();
        match c {
            '(' => self.add_token(TokenKind::LeftParen, line),
            ')' => self.add_token(TokenKind::RightParen, line),
            '{' => self.add_token(TokenKind::LeftBrace, line),
            '}' => self.add_token(TokenKind::RightBrace, line),
            ',' => self.add_token(TokenKind::Comma, line),
            '.' => self.add_token(TokenKind::Dot, line),
            '+' => self.add_token(TokenKind::Plus, line),
            '-' => self.add_token(TokenKind::Minus, line),
            '*' => self.add_token(TokenKind::Star, line),
            ';' => self.add_token(TokenKind::SemiColon, line),
            '!' => {
                if self.is_match('=') {
                    self.add_token(TokenKind::BangEqual, line)
                } else {
                    self.add_token(TokenKind::Bang, line)
                }
            },
            '=' => {
                if self.is_match('=') {
                    self.add_token(TokenKind::Equals, line)
                } else {
                    self.add_token(TokenKind::Assign, line)
                }
            },
            '>' => {
                if self.is_match('=') {
                    self.add_token(TokenKind::GreaterEqual, line)
                } else {
                    self.add_token(TokenKind::Greater, line)
                }
            },
            '<' => {
                if self.is_match('=') {
                    self.add_token(TokenKind::LessEqual, line)
                } else {
                    self.add_token(TokenKind::Less, line)
                }
            },
            '/' => {
                if self.is_match('/') {
                    loop
                        invariant
                            self.inv(),
                            self.source == old(self).source,
                            self.source@ == s,
                            self.tokens == old(self).tokens,
                            self.start == old(self).start,
                            first + 2 <= self.current,
                            run_end(s, Run::Comment, self.current as int) == run_end(
                                s,
                                Run::Comment,
                                first + 2,
                            ),
                        ensures
                            self.current == run_end(s, Run::Comment, first + 2),
                        decreases self.source.len() - self.current,
                    {
                        match self.peek() {
                            Some(ch) => {
                                if ch != '\n' {
                                    self.advance();
                                } else {
                                    break;
                                }
                            },
                            None => {
                                break;
                            },
                        }
                    }
                } else {
                    self.add_token(TokenKind::Slash, line)
                }
            },
            ' ' | '\r' | '\t' | '\n' => (),
            '"' => {
                return self.string();
            },
            _ => {
                if is_digit(Some(c)) {
                    self.number()
                } else if starts_word(c, c.is_alphabetic()) {
                    self.identifier()
                } else {
                    return Err(LexicalError::UnexpectedCharacter { line, character: c });
                }
            },
        }
        Ok(())
    }

    /// Scans the rest of a string literal, whose opening quote has been
    /// consumed.
    fn string(&mut self) -> (result: Result<(), LexicalError>)
        requires
            old(self).inv(),
            old(self).current == old(self).start + 1,
            old(self).line == line_at(old(self).source@, old(self).start as int),
        ensures
            Self::took(
                *old(self),
                *final(self),
                result,
                string_step(old(self).source@, old(self).start as int),
            ),
    {
        let ghost s = self.source@;
        let ghost first = self.start as int;
        let line = self.line;
        loop
            invariant
                self.inv(),
                self.source == old(self).source,
                self.source@ == s,
                self.tokens == old(self).tokens,
                self.start == old(self).start,
                first + 1 <= self.current,
                run_end(s, Run::Quoted, self.current as int) == run_end(s, Run::Quoted, first + 1),
            ensures
                self.current == run_end(s, Run::Quoted, first + 1),
            decreases self.source.len() - self.current,
        {
            match self.peek() {
                Some(ch) => {
                    if ch != '"' {
                        self.advance();
                    } else {
                        break;
                    }
                },
                None => {
                    break;
                },
            }
        }
        if self.is_at_end() {
            return Err(LexicalError::UnterminatedString { line: self.line });
        }
        self.advance();
        let value = text_of(&self.source, self.start + 1, self.current - 1);
        self.add_token(TokenKind::String { value }, line);
        Ok(())
    }

    /// Scans the rest of an identifier or a reserved word, whose first
    /// character has been consumed.
    fn identifier(&mut self)
        requires
            old(self).inv(),
            old(self).current == old(self).start + 1,
            old(self).line == line_at(old(self).source@, old(self).start as int),
        ensures
            Self::took(
                *old(self),
                *final(self),
                Ok(()),
                word_step(old(self).source@, old(self).start as int),
            ),
    {
        let ghost s = self.source@;
        let ghost first = self.start as int;
        let line = self.line;
        while continues_word(self.peek(), is_alphanumeric(self.peek()))
            invariant
                self.inv(),
                self.source == old(self).source,
                self.source@ == s,
                self.tokens == old(self).tokens,
                self.start == old(self).start,
                first + 1 <= self.current,
                run_end(s, Run::Word, self.current as int) == run_end(s, Run::Word, first + 1),
            decreases self.source.len() - self.current,
        {
            self.advance();
        }
        let name = text_of(&self.source, self.start, self.current);
        match keyword(&name) {
            Some(kind) => self.add_token(kind, line),
            None => self.add_token(TokenKind::Identifier { name }, line),
        }
    }

    /// Scans the rest of a numeric literal, whose first digit has been
    /// consumed.
    fn number(&mut self)
        requires
            old(self).inv(),
            old(self).current == old(self).start + 1,
            decimal_digit(old(self).source@[old(self).start as int]),
            old(self).line == line_at(old(self).source@, old(self).start as int),
        ensures
            Self::took(
                *old(self),
                *final(self),
                Ok(()),
                number_step(old(self).source@, old(self).start as int),
            ),
    {
        let ghost s = self.source@;
        let ghost first = self.start as int;
        let line = self.line;
        while is_digit(self.peek())
            invariant
                self.inv(),
                self.source == old(self).source,
                self.source@ == s,
                self.tokens == old(self).tokens,
                self.start == old(self).start,
                first + 1 <= self.current,
                run_end(s, Run::Digits, self.current as int) == run_end(s, Run::Digits, first),
            decreases self.source.len() - self.current,
        {
            self.advance();
        }
        if self.peek() == Some('.') && is_digit(Some(self.peek_next())) {
            let ghost whole = self.current as int;
            self.advance();
            while is_digit(self.peek())
                invariant
                    self.inv(),
                    self.source == old(self).source,
                    self.source@ == s,
                    self.tokens == old(self).tokens,
                    self.start == old(self).start,
                    whole + 1 <= self.current,
                    run_end(s, Run::Digits, self.current as int) == run_end(
                        s,
                        Run::Digits,
                        whole + 1,
                    ),
                decreases self.source.len() - self.current,
            {
                self.advance();
            }
        }
        let lexeme = text_of(&self.source, self.start, self.current);
        self.add_token(TokenKind::Number { lexeme }, line);
    }

    /// Appends a token of kind `kind` that starts on line `line`.
    fn add_token(&mut self, kind: TokenKind, line: usize)
        ensures
            final(self).tokens@ == old(self).tokens@.push(Token { kind, line }),
            token_views(final(self).tokens@) == token_views(old(self).tokens@).push(
                TokenView { kind: kind@, line: line as int },
            ),
            *final(self) == (Scanner { tokens: final(self).tokens, ..*old(self) }),
    {
        self.tokens.push(Token { kind, line });
        assert(token_views(self.tokens@) =~= token_views(old(self).tokens@).push(
            TokenView { kind: kind@, line: line as int },
        ));
    }

    /// Tells whether the scan head has reached the end of the source.
    fn is_at_end(&self) -> (at_end: bool)
        ensures
            at_end == (self.current >= self.source.len()),
    {
        self.current >= self.source.len()
    }

    /// The character at the scan head, if there is one.
    fn peek(&self) -> (next: Option<char>)
        ensures
            next == if self.current < self.source.len() {
                Some(self.source@[self.current as int])
            } else {
                None
            },
    {
        if self.current < self.source.len() {
            Some(self.source[self.current])
        } else {
            None
        }
    }

    /// The character after the one at the scan head, or `'\0'` where the
    /// source has none.
    fn peek_next(&self) -> (after: char)
        ensures
            after == if self.current + 1 < self.source.len() {
                self.source@[self.current + 1]
            } else {
                '\0'
            },
    {
        if self.current < self.source.len() && self.current + 1 < self.source.len() {
            self.source[self.current + 1]
        } else {
            '\0'
        }
    }

    /// Consumes the character at the scan head and returns it. The line
    /// counter moves on by one where that character is a newline, and stays
    /// otherwise: it counts each newline once, when it is consumed.
    fn advance(&mut self) -> (c: char)
        requires
            old(self).inv(),
            old(self).current < old(self).source.len(),
        ensures
            c == old(self).source@[old(self).current as int],
            final(self).inv(),
            *final(self) == (Scanner {
                current: (old(self).current + 1) as usize,
                line: if c == '\n' {
                    (old(self).line + 1) as usize
                } else {
                    old(self).line
                },
                ..*old(self)
            }),
    {
        let c = self.source[self.current];
        proof {
            lemma_newlines_monotonic(self.source@, 0, self.current as int);
        }
        self.current += 1;
        if c == '\n' {
            self.line += 1;
        }
        c
    }

    /// Consumes the character at the scan head if it is `expected`, and
    /// tells whether it did. The line counter stays, unless a newline was
    /// expected and consumed.
    fn is_match(&mut self, expected: char) -> (matched: bool)
        requires
            old(self).inv(),
        ensures
            matched == (old(self).current < old(self).source.len() && old(self).source@[old(
                self,
            ).current as int] == expected),
            final(self).inv(),
            *final(self) == (Scanner {
                current: if matched {
                    (old(self).current + 1) as usize
                } else {
                    old(self).current
                },
                line: if matched && expected == '\n' {
                    (old(self).line + 1) as usize
                } else {
                    old(self).line
                },
                ..*old(self)
            }),
    {
        match self.peek() {
            Some(ch) => {
                if ch == expected {
                    self.advance();
                    true
                } else {
                    false
                }
            },
            None => false,
        }
    }
}

} // verus!
