//! Tokens: the classified units that the scanner hands to its consumer.

use vstd::prelude::*;

verus! {

/// The category of a token, with the payload that literals carry.
#[derive(Debug, Clone, PartialEq)]
pub enum TokenKind {
    LeftParen,
    RightParen,
    LeftBrace,
    RightBrace,
    Comma,
    Dot,
    Plus,
    Minus,
    Star,
    Slash,
    SemiColon,
    Bang,
    BangEqual,
    Assign,
    Equals,
    Greater,
    GreaterEqual,
    Less,
    LessEqual,
    /// A string literal; `value` is the text strictly between the quotes.
    String { value: String },
    /// A numeric literal; `lexeme` is its text as written, decimal digits
    /// with at most one `.` between two of them.
    Number { lexeme: String },
    /// A name that is not a reserved word.
    Identifier { name: String },
    And,
    Class,
    Else,
    False,
    For,
    Fun,
    If,
    Nil,
    Or,
    Print,
    Return,
    Super,
    This,
    True,
    Var,
    While,
    /// End of input: always the last token and never anywhere else.
    Eof,
}

/// A token as the scanner produces it.
#[derive(Debug, Clone, PartialEq)]
pub struct Token {
    pub kind: TokenKind,
    /// The 1-based line on which the token's text starts.
    pub line: usize,
}

/// The mathematical value of a [`TokenKind`]: the same categories, with text
/// as sequences of characters.
pub enum Kind {
    LeftParen,
    RightParen,
    LeftBrace,
    RightBrace,
    Comma,
    Dot,
    Plus,
    Minus,
    Star,
    Slash,
    SemiColon,
    Bang,
    BangEqual,
    Assign,
    Equals,
    Greater,
    GreaterEqual,
    Less,
    LessEqual,
    String(Seq<char>),
    Number(Seq<char>),
    Identifier(Seq<char>),
    And,
    Class,
    Else,
    False,
    For,
    Fun,
    If,
    Nil,
    Or,
    Print,
    Return,
    Super,
    This,
    True,
    Var,
    While,
    Eof,
}

/// The mathematical value of a [`Token`].
pub struct TokenView {
    pub kind: Kind,
    pub line: int,
}

impl View for TokenKind {
    type V = Kind;

    open spec fn view(&self) -> Kind {
        match self {
            TokenKind::LeftParen => Kind::LeftParen,
            TokenKind::RightParen => Kind::RightParen,
            TokenKind::LeftBrace => Kind::LeftBrace,
            TokenKind::RightBrace => Kind::RightBrace,
            TokenKind::Comma => Kind::Comma,
            TokenKind::Dot => Kind::Dot,
            TokenKind::Plus => Kind::Plus,
            TokenKind::Minus => Kind::Minus,
            TokenKind::Star => Kind::Star,
            TokenKind::Slash => Kind::Slash,
            TokenKind::SemiColon => Kind::SemiColon,
            TokenKind::Bang => Kind::Bang,
            TokenKind::BangEqual => Kind::BangEqual,
            TokenKind::Assign => Kind::Assign,
            TokenKind::Equals => Kind::Equals,
            TokenKind::Greater => Kind::Greater,
            TokenKind::GreaterEqual => Kind::GreaterEqual,
            TokenKind::Less => Kind::Less,
            TokenKind::LessEqual => Kind::LessEqual,
            TokenKind::String { value } => Kind::String(value@),
            TokenKind::Number { lexeme } => Kind::Number(lexeme@),
            TokenKind::Identifier { name } => Kind::Identifier(name@),
            TokenKind::And => Kind::And,
            TokenKind::Class => Kind::Class,
            TokenKind::Else => Kind::Else,
            TokenKind::False => Kind::False,
            TokenKind::For => Kind::For,
            TokenKind::Fun => Kind::Fun,
            TokenKind::If => Kind::If,
            TokenKind::Nil => Kind::Nil,
            TokenKind::Or => Kind::Or,
            TokenKind::Print => Kind::Print,
            TokenKind::Return => Kind::Return,
            TokenKind::Super => Kind::Super,
            TokenKind::This => Kind::This,
            TokenKind::True => Kind::True,
            TokenKind::Var => Kind::Var,
            TokenKind::While => Kind::While,
            TokenKind::Eof => Kind::Eof,
        }
    }
}

impl View for Token {
    type V = TokenView;

    open spec fn view(&self) -> TokenView {
        TokenView { kind: self.kind@, line: self.line as int }
    }
}

/// The views of a sequence of tokens, in order.
pub open spec fn token_views(tokens: Seq<Token>) -> Seq<TokenView> {
    tokens.map_values(|t: Token| t@)
}

/// The source text that a token of kind `kind` was cut from. Only the
/// end-of-input token has none.
pub open spec fn spelling(kind: Kind) -> Seq<char> {
    match kind {
        Kind::LeftParen => seq!['('],
        Kind::RightParen => seq![')'],
        Kind::LeftBrace => seq!['{'],
        Kind::RightBrace => seq!['}'],
        Kind::Comma => seq![','],
        Kind::Dot => seq!['.'],
        Kind::Plus => seq!['+'],
        Kind::Minus => seq!['-'],
        Kind::Star => seq!['*'],
        Kind::Slash => seq!['/'],
        Kind::SemiColon => seq![';'],
        Kind::Bang => seq!['!'],
        Kind::BangEqual => seq!['!', '='],
        Kind::Assign => seq!['='],
        Kind::Equals => seq!['=', '='],
        Kind::Greater => seq!['>'],
        Kind::GreaterEqual => seq!['>', '='],
        Kind::Less => seq!['<'],
        Kind::LessEqual => seq!['<', '='],
        Kind::String(value) => seq!['"'] + value + seq!['"'],
        Kind::Number(lexeme) => lexeme,
        Kind::Identifier(name) => name,
        Kind::And => "and"@,
        Kind::Class => "class"@,
        Kind::Else => "else"@,
        Kind::False => "false"@,
        Kind::For => "for"@,
        Kind::Fun => "fun"@,
        Kind::If => "if"@,
        Kind::Nil => "nil"@,
        Kind::Or => "or"@,
        Kind::Print => "print"@,
        Kind::Return => "return"@,
        Kind::Super => "super"@,
        Kind::This => "this"@,
        Kind::True => "true"@,
        Kind::Var => "var"@,
        Kind::While => "while"@,
        Kind::Eof => Seq::empty(),
    }
}

} // verus!
