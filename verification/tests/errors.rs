use jlox::error::LexicalError;
use jlox::scanner::Scanner;

#[test]
fn line_of_each_error() {
    assert_eq!(LexicalError::UnexpectedCharacter { line: 3, character: '@' }.line(), 3);
    assert_eq!(LexicalError::UnterminatedString { line: 120 }.line(), 120);
}

#[test]
fn message_of_each_error() {
    assert_eq!(
        LexicalError::UnexpectedCharacter { line: 3, character: '@' }.message(),
        "Unexpected character. '@ "
    );
    assert_eq!(LexicalError::UnterminatedString { line: 1 }.message(), "Unterminated string.");
}

#[test]
fn report_has_the_diagnostic_shape() {
    assert_eq!(
        LexicalError::UnterminatedString { line: 12 }.report(""),
        "[line 12] Error : Unterminated string."
    );
    assert_eq!(
        LexicalError::UnexpectedCharacter { line: 1, character: '#' }.report(""),
        "[line 1] Error : Unexpected character. '# "
    );
    assert_eq!(
        LexicalError::UnexpectedCharacter { line: 2050, character: 'é' }.report("at end"),
        "[line 2050] Error at end: Unexpected character. 'é "
    );
}

#[test]
fn report_of_a_scanned_error() {
    let mut scanner = Scanner::new("var a;\nvar b = ~a;".chars().collect());
    let (_, errors) = scanner.scan_tokens();
    assert_eq!(errors.len(), 1);
    assert_eq!(errors[0].report(""), "[line 2] Error : Unexpected character. '~ ");
}
