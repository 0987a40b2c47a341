use jlox::error::LexicalError;
use jlox::scanner::Scanner;
use jlox::token::{Token, TokenKind};

fn scan(text: &str) -> (Vec<Token>, Vec<LexicalError>) {
    let mut scanner = Scanner::new(text.chars().collect());
    scanner.scan_tokens()
}

fn kinds(text: &str) -> Vec<TokenKind> {
    scan(text).0.into_iter().map(|token| token.kind).collect()
}

fn lines(text: &str) -> Vec<usize> {
    scan(text).0.into_iter().map(|token| token.line).collect()
}

fn string(value: &str) -> TokenKind {
    TokenKind::String { value: value.to_string() }
}

fn number(lexeme: &str) -> TokenKind {
    TokenKind::Number { lexeme: lexeme.to_string() }
}

fn identifier(name: &str) -> TokenKind {
    TokenKind::Identifier { name: name.to_string() }
}

#[test]
fn empty_source_yields_only_end_of_input() {
    let (tokens, errors) = scan("");
    assert_eq!(tokens, vec![Token { kind: TokenKind::Eof, line: 1 }]);
    assert!(errors.is_empty());
}

#[test]
fn whitespace_and_comments_yield_only_end_of_input() {
    let (tokens, errors) = scan("  \t\r\n// a comment ( with \" tokens\n   // another\n\t");
    assert_eq!(tokens, vec![Token { kind: TokenKind::Eof, line: 4 }]);
    assert!(errors.is_empty());
}

#[test]
fn comment_runs_to_end_of_input() {
    let (tokens, errors) = scan("// no newline at the end");
    assert_eq!(tokens, vec![Token { kind: TokenKind::Eof, line: 1 }]);
    assert!(errors.is_empty());
}

#[test]
fn comment_ends_before_the_newline() {
    assert_eq!(kinds("1 // one\n2"), vec![number("1"), number("2"), TokenKind::Eof]);
    assert_eq!(lines("1 // one\n2"), vec![1, 2, 2]);
}

#[test]
fn single_character_tokens() {
    assert_eq!(
        kinds("(){},.+-*;"),
        vec![
            TokenKind::LeftParen,
            TokenKind::RightParen,
            TokenKind::LeftBrace,
            TokenKind::RightBrace,
            TokenKind::Comma,
            TokenKind::Dot,
            TokenKind::Plus,
            TokenKind::Minus,
            TokenKind::Star,
            TokenKind::SemiColon,
            TokenKind::Eof,
        ]
    );
}

#[test]
fn bang_equal_is_one_token() {
    assert_eq!(kinds("!="), vec![TokenKind::BangEqual, TokenKind::Eof]);
}

#[test]
fn bang_alone_is_bang() {
    assert_eq!(kinds("!"), vec![TokenKind::Bang, TokenKind::Eof]);
}

#[test]
fn operators_take_the_longest_match() {
    assert_eq!(
        kinds("== = >= > <= < != !"),
        vec![
            TokenKind::Equals,
            TokenKind::Assign,
            TokenKind::GreaterEqual,
            TokenKind::Greater,
            TokenKind::LessEqual,
            TokenKind::Less,
            TokenKind::BangEqual,
            TokenKind::Bang,
            TokenKind::Eof,
        ]
    );
    assert_eq!(kinds("==="), vec![TokenKind::Equals, TokenKind::Assign, TokenKind::Eof]);
    assert_eq!(kinds("! ="), vec![TokenKind::Bang, TokenKind::Assign, TokenKind::Eof]);
}

#[test]
fn slash_alone_is_a_token() {
    assert_eq!(kinds("/"), vec![TokenKind::Slash, TokenKind::Eof]);
    assert_eq!(kinds("a / b"), vec![identifier("a"), TokenKind::Slash, identifier("b"), TokenKind::Eof]);
    assert_eq!(kinds("/ /"), vec![TokenKind::Slash, TokenKind::Slash, TokenKind::Eof]);
}

#[test]
fn forest_is_an_identifier() {
    assert_eq!(kinds("forest"), vec![identifier("forest"), TokenKind::Eof]);
}

#[test]
fn reserved_words() {
    assert_eq!(
        kinds("and class else false for fun if nil or print return super this true var while"),
        vec![
            TokenKind::And,
            TokenKind::Class,
            TokenKind::Else,
            TokenKind::False,
            TokenKind::For,
            TokenKind::Fun,
            TokenKind::If,
            TokenKind::Nil,
            TokenKind::Or,
            TokenKind::Print,
            TokenKind::Return,
            TokenKind::Super,
            TokenKind::This,
            TokenKind::True,
            TokenKind::Var,
            TokenKind::While,
            TokenKind::Eof,
        ]
    );
}

#[test]
fn reserved_words_are_case_sensitive_and_whole() {
    assert_eq!(
        kinds("And fo fort _for for_ for1"),
        vec![
            identifier("And"),
            identifier("fo"),
            identifier("fort"),
            identifier("_for"),
            identifier("for_"),
            identifier("for1"),
            TokenKind::Eof,
        ]
    );
}

#[test]
fn identifiers_hold_letters_digits_and_underscores() {
    assert_eq!(
        kinds("_ _a1 a_b2c x9_"),
        vec![identifier("_"), identifier("_a1"), identifier("a_b2c"), identifier("x9_"), TokenKind::Eof]
    );
}

#[test]
fn identifiers_hold_letters_beyond_ascii() {
    assert_eq!(kinds("été = λx"), vec![identifier("été"), TokenKind::Assign, identifier("λx"), TokenKind::Eof]);
    // An Arabic-Indic digit may continue a word, and cannot start one or a number.
    assert_eq!(kinds("a٣"), vec![identifier("a٣"), TokenKind::Eof]);
    let (tokens, errors) = scan("٣");
    assert_eq!(tokens, vec![Token { kind: TokenKind::Eof, line: 1 }]);
    assert_eq!(errors, vec![LexicalError::UnexpectedCharacter { line: 1, character: '٣' }]);
}

#[test]
fn trailing_dot_is_not_part_of_a_number() {
    assert_eq!(kinds("123."), vec![number("123"), TokenKind::Dot, TokenKind::Eof]);
    let (tokens, _) = scan("123.");
    match &tokens[0].kind {
        TokenKind::Number { lexeme } => assert_eq!(lexeme.parse::<f32>().unwrap(), 123.0),
        other => panic!("not a number: {:?}", other),
    }
}

#[test]
fn numbers_with_and_without_fraction() {
    assert_eq!(kinds("0 7 12.5 003.140"), vec![number("0"), number("7"), number("12.5"), number("003.140"), TokenKind::Eof]);
    let (tokens, _) = scan("12.5");
    match &tokens[0].kind {
        TokenKind::Number { lexeme } => assert_eq!(lexeme.parse::<f32>().unwrap(), 12.5),
        other => panic!("not a number: {:?}", other),
    }
}

#[test]
fn a_number_has_at_most_one_dot() {
    assert_eq!(kinds("1.2.3"), vec![number("1.2"), TokenKind::Dot, number("3"), TokenKind::Eof]);
    assert_eq!(kinds(".5"), vec![TokenKind::Dot, number("5"), TokenKind::Eof]);
    assert_eq!(kinds("1..2"), vec![number("1"), TokenKind::Dot, TokenKind::Dot, number("2"), TokenKind::Eof]);
    assert_eq!(kinds("4.x"), vec![number("4"), TokenKind::Dot, identifier("x"), TokenKind::Eof]);
}

#[test]
fn digits_then_letters_are_two_tokens() {
    assert_eq!(kinds("12ab"), vec![number("12"), identifier("ab"), TokenKind::Eof]);
}

#[test]
fn string_literal_holds_the_text_between_the_quotes() {
    assert_eq!(kinds("\"abc\""), vec![string("abc"), TokenKind::Eof]);
    assert_eq!(kinds("\"\""), vec![string(""), TokenKind::Eof]);
    assert_eq!(kinds("\"a // b\" c"), vec![string("a // b"), identifier("c"), TokenKind::Eof]);
    assert_eq!(kinds("\"a\\\"b"), vec![string("a\\"), identifier("b"), TokenKind::Eof]);
}

#[test]
fn unexpected_character_is_reported_and_skipped() {
    let (tokens, errors) = scan("(@)");
    assert_eq!(
        tokens,
        vec![
            Token { kind: TokenKind::LeftParen, line: 1 },
            Token { kind: TokenKind::RightParen, line: 1 },
            Token { kind: TokenKind::Eof, line: 1 },
        ]
    );
    assert_eq!(errors, vec![LexicalError::UnexpectedCharacter { line: 1, character: '@' }]);
}

#[test]
fn every_error_is_kept_in_order() {
    let (tokens, errors) = scan("#\n a $\n\n^ \"open\n");
    assert_eq!(
        tokens,
        vec![
            Token { kind: TokenKind::Identifier { name: "a".to_string() }, line: 2 },
            Token { kind: TokenKind::Eof, line: 5 },
        ]
    );
    assert_eq!(
        errors,
        vec![
            LexicalError::UnexpectedCharacter { line: 1, character: '#' },
            LexicalError::UnexpectedCharacter { line: 2, character: '$' },
            LexicalError::UnexpectedCharacter { line: 4, character: '^' },
            LexicalError::UnterminatedString { line: 5 },
        ]
    );
}

#[test]
fn unterminated_string_yields_no_token() {
    let (tokens, errors) = scan("\"abc");
    assert_eq!(tokens, vec![Token { kind: TokenKind::Eof, line: 1 }]);
    assert_eq!(errors, vec![LexicalError::UnterminatedString { line: 1 }]);
}

#[test]
fn unterminated_string_is_reported_where_the_input_ends() {
    let (tokens, errors) = scan("x \"abc\nde\nf");
    assert_eq!(
        tokens,
        vec![
            Token { kind: TokenKind::Identifier { name: "x".to_string() }, line: 1 },
            Token { kind: TokenKind::Eof, line: 3 },
        ]
    );
    assert_eq!(errors, vec![LexicalError::UnterminatedString { line: 3 }]);
}

#[test]
fn multi_line_string_is_one_token() {
    let (tokens, errors) = scan("\"a\nb\"");
    assert_eq!(
        tokens,
        vec![
            Token { kind: TokenKind::String { value: "a\nb".to_string() }, line: 1 },
            Token { kind: TokenKind::Eof, line: 2 },
        ]
    );
    assert!(errors.is_empty());
}

#[test]
fn line_counter_goes_on_after_a_multi_line_string() {
    assert_eq!(lines("\"a\nb\" c\nd"), vec![1, 2, 3, 3]);
}

#[test]
fn lines_count_newlines_before_each_token() {
    let text = "var a = 1;\n\n// note\nprint a\r\n  + 2;\n";
    let (tokens, errors) = scan(text);
    assert!(errors.is_empty());
    let found: Vec<usize> = tokens.iter().map(|token| token.line).collect();
    assert_eq!(found, vec![1, 1, 1, 1, 1, 4, 4, 5, 5, 5, 6]);
    for pair in found.windows(2) {
        assert!(pair[0] <= pair[1]);
    }
}

#[test]
fn a_small_program() {
    let text = "fun add(a, b) {\n  return a + b; // sum\n}\nprint add(1, 2.5) >= 3 and !false;";
    let (tokens, errors) = scan(text);
    assert!(errors.is_empty());
    let found: Vec<TokenKind> = tokens.into_iter().map(|token| token.kind).collect();
    assert_eq!(
        found,
        vec![
            TokenKind::Fun,
            identifier("add"),
            TokenKind::LeftParen,
            identifier("a"),
            TokenKind::Comma,
            identifier("b"),
            TokenKind::RightParen,
            TokenKind::LeftBrace,
            TokenKind::Return,
            identifier("a"),
            TokenKind::Plus,
            identifier("b"),
            TokenKind::SemiColon,
            TokenKind::RightBrace,
            TokenKind::Print,
            identifier("add"),
            TokenKind::LeftParen,
            number("1"),
            TokenKind::Comma,
            number("2.5"),
            TokenKind::RightParen,
            TokenKind::GreaterEqual,
            number("3"),
            TokenKind::And,
            TokenKind::Bang,
            TokenKind::False,
            TokenKind::SemiColon,
            TokenKind::Eof,
        ]
    );
}

#[test]
fn end_of_input_is_last_and_only_once() {
    for text in ["", "a", "(@)", "\"open", "1 + 2 // x", "\n\n"] {
        let (tokens, _) = scan(text);
        let count = tokens.iter().filter(|token| token.kind == TokenKind::Eof).count();
        assert_eq!(count, 1);
        assert_eq!(tokens.last().unwrap().kind, TokenKind::Eof);
    }
}

#[test]
fn two_scanners_agree() {
    let text = "var x = \"two\nlines\"; @ 3.14 // done";
    assert_eq!(scan(text), scan(text));
}

#[test]
fn a_scanner_can_scan_again() {
    let mut scanner = Scanner::new("a = \"b\nc\" #".chars().collect());
    let first = scanner.scan_tokens();
    let second = scanner.scan_tokens();
    assert_eq!(first, second);
    assert_eq!(first.0.len(), 4);
    assert_eq!(first.1, vec![LexicalError::UnexpectedCharacter { line: 2, character: '#' }]);
}

fn spelling(kind: &TokenKind) -> String {
    match kind {
        TokenKind::LeftParen => "(".to_string(),
        TokenKind::RightParen => ")".to_string(),
        TokenKind::LeftBrace => "{".to_string(),
        TokenKind::RightBrace => "}".to_string(),
        TokenKind::Comma => ",".to_string(),
        TokenKind::Dot => ".".to_string(),
        TokenKind::Plus => "+".to_string(),
        TokenKind::Minus => "-".to_string(),
        TokenKind::Star => "*".to_string(),
        TokenKind::Slash => "/".to_string(),
        TokenKind::SemiColon => ";".to_string(),
        TokenKind::Bang => "!".to_string(),
        TokenKind::BangEqual => "!=".to_string(),
        TokenKind::Assign => "=".to_string(),
        TokenKind::Equals => "==".to_string(),
        TokenKind::Greater => ">".to_string(),
        TokenKind::GreaterEqual => ">=".to_string(),
        TokenKind::Less => "<".to_string(),
        TokenKind::LessEqual => "<=".to_string(),
        TokenKind::String { value } => format!("\"{}\"", value),
        TokenKind::Number { lexeme } => lexeme.clone(),
        TokenKind::Identifier { name } => name.clone(),
        TokenKind::And => "and".to_string(),
        TokenKind::Class => "class".to_string(),
        TokenKind::Else => "else".to_string(),
        TokenKind::False => "false".to_string(),
        TokenKind::For => "for".to_string(),
        TokenKind::Fun => "fun".to_string(),
        TokenKind::If => "if".to_string(),
        TokenKind::Nil => "nil".to_string(),
        TokenKind::Or => "or".to_string(),
        TokenKind::Print => "print".to_string(),
        TokenKind::Return => "return".to_string(),
        TokenKind::Super => "super".to_string(),
        TokenKind::This => "this".to_string(),
        TokenKind::True => "true".to_string(),
        TokenKind::Var => "var".to_string(),
        TokenKind::While => "while".to_string(),
        TokenKind::Eof => String::new(),
    }
}

#[test]
fn tokens_rebuild_the_source_without_blanks() {
    let text = "var s = \"a b // c\"; // note\n\tprint s >= 1.5 / 2;\r\n// end";
    let (tokens, errors) = scan(text);
    assert!(errors.is_empty());
    let joined: String = tokens.iter().map(|token| spelling(&token.kind)).collect();
    assert_eq!(joined, "vars=\"a b // c\";prints>=1.5/2;");
}

fn skip_blank(text: &str) -> &str {
    let mut rest = text;
    loop {
        rest = rest.trim_start_matches([' ', '\r', '\t', '\n']);
        if !rest.starts_with("//") {
            return rest;
        }
        rest = match rest.find('\n') {
            Some(at) => &rest[at..],
            None => "",
        };
    }
}

#[test]
fn token_texts_tile_the_source() {
    let text = "fun f(a) { return a != nil; } // f\nf(\"x\ny\"); / // g";
    let (tokens, errors) = scan(text);
    assert!(errors.is_empty());
    let mut rest = text;
    for token in &tokens {
        let piece = spelling(&token.kind);
        rest = skip_blank(rest);
        assert!(rest.starts_with(&piece));
        rest = &rest[piece.len()..];
    }
    assert_eq!(rest, "");
    assert_eq!(tokens.len(), 19);
}

fn sample(seed: &mut u64, length: usize) -> String {
    let alphabet: Vec<char> = "()!=<>/ \n\t\"ab_1.@é;-{".chars().collect();
    let mut text = String::new();
    for _ in 0..length {
        *seed = seed.wrapping_mul(6364136223846793005).wrapping_add(1442695040888963407);
        let pick = ((*seed >> 33) as usize) % alphabet.len();
        text.push(alphabet[pick]);
    }
    text
}

#[test]
fn many_sources_keep_the_shape_of_a_scan() {
    let mut seed: u64 = 2024;
    let mut clean = 0;
    for round in 0..3000 {
        let text = sample(&mut seed, round % 24);
        let (tokens, errors) = scan(&text);
        assert_eq!(tokens.last().unwrap().kind, TokenKind::Eof);
        let ends = tokens.iter().filter(|token| token.kind == TokenKind::Eof).count();
        assert_eq!(ends, 1);
        let last_line = 1 + text.chars().filter(|c| *c == '\n').count();
        assert_eq!(tokens.last().unwrap().line, last_line);
        for pair in tokens.windows(2) {
            assert!(1 <= pair[0].line && pair[0].line <= pair[1].line);
        }
        for pair in errors.windows(2) {
            assert!(pair[0].line() <= pair[1].line());
            assert!(matches!(pair[0], LexicalError::UnexpectedCharacter { .. }));
        }
        for error in &errors {
            assert!(1 <= error.line() && error.line() <= last_line);
        }
        assert_eq!(scan(&text), (tokens.clone(), errors.clone()));
        if errors.is_empty() {
            clean += 1;
            let mut rest = text.as_str();
            let mut line = 1;
            for token in &tokens {
                let piece = spelling(&token.kind);
                let before = rest;
                rest = skip_blank(rest);
                line += before[..before.len() - rest.len()].chars().filter(|c| *c == '\n').count();
                assert_eq!(token.line, line);
                assert!(rest.starts_with(&piece));
                line += piece.chars().filter(|c| *c == '\n').count();
                rest = &rest[piece.len()..];
            }
            assert_eq!(rest, "");
        }
    }
    assert!(clean > 100);
}
