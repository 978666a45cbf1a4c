use slang::error::locate_line;
use slang::ir::{ErrorKindOf as IrErrorKind, ErrorOf as IrError};
use slang::parse::{ErrorKindOf as ParseErrorKind, ErrorOf as ParseError};
use slang::tokenize::{tokenize, ErrorKindOf, ErrorOf, Span, TokenKindOf};

#[test]
fn an_unclosed_string_is_reported() {
    let err = tokenize("let x = \"abc").unwrap_err();
    assert_eq!(err.message(), b"Missing closing string delimiter".to_vec());
}

#[test]
fn lexing_messages_quote_the_word() {
    let err = ErrorOf { kind: ErrorKindOf::Ident(b"1a".to_vec()), index: 0 };
    assert_eq!(err.message(), b"Invalid ident `1a`".to_vec());
    let err = ErrorOf { kind: ErrorKindOf::Integer(b"99999999999999999999".to_vec()), index: 0 };
    assert_eq!(err.message(), b"Invalid integer `99999999999999999999`".to_vec());
}

#[test]
fn token_kinds_are_shown_by_their_text() {
    assert_eq!(TokenKindOf::Arrow.text(), b"->".to_vec());
    assert_eq!(TokenKindOf::Fn.text(), b"fn".to_vec());
    assert_eq!(TokenKindOf::Integer(42).text(), b"42".to_vec());
    assert_eq!(TokenKindOf::Ident(b"main".to_vec()).text(), b"main".to_vec());
}

#[test]
fn string_tokens_are_shown_quoted_and_escaped() {
    let kind = TokenKindOf::Str(b"a\"b\\c\n\t\x01".to_vec());
    assert_eq!(kind.text(), b"\"a\\\"b\\\\c\\n\\t\\u{1}\"".to_vec());
    let debug = format!("{:?}", "a\"b\\c\n\t\x01");
    assert_eq!(kind.text(), debug.into_bytes());
}

#[test]
fn parse_messages_name_the_tokens() {
    let err = ParseError {
        kind: ParseErrorKind::Expected {
            expected: TokenKindOf::Semi,
            got: Some(TokenKindOf::Integer(1)),
        },
        span: Span { start: 0, end: 1 },
    };
    assert_eq!(err.message(), b"Expected `;`, got `1`".to_vec());
    let err = ParseError {
        kind: ParseErrorKind::Declaraction { kind: "parameter" },
        span: Span { start: 0, end: 1 },
    };
    assert_eq!(err.message(), b"Invalid parameter declaration".to_vec());
    let err = ParseError {
        kind: ParseErrorKind::UnmatchedDelimiter { delimiter: TokenKindOf::OpenCurly },
        span: Span { start: 0, end: 1 },
    };
    assert_eq!(err.message(), b"Unmatched delimiter `{`".to_vec());
}

#[test]
fn lowering_messages_give_the_counts() {
    let err = IrError {
        kind: IrErrorKind::ArgumentMismatch { expected: 2, got: 3 },
        span: Span { start: 0, end: 1 },
    };
    assert_eq!(err.message(), b"Expected 2 arguments, got 3".to_vec());
    let err = IrError {
        kind: IrErrorKind::ReturnMismatch { expected: 0, got: 1 },
        span: Span { start: 0, end: 1 },
    };
    assert_eq!(err.message(), b"Expected function to return 0 values, not 1".to_vec());
    let err = IrError {
        kind: IrErrorKind::Undefined { ident: b"x".to_vec() },
        span: Span { start: 0, end: 1 },
    };
    assert_eq!(err.message(), b"`x` is undefined".to_vec());
}

#[test]
fn the_line_of_an_error_is_found() {
    assert_eq!(locate_line("ab\ncd\r\nef", 4), Some((2, b"cd".to_vec())));
    assert_eq!(locate_line("ab\ncd\r\nef", 0), Some((1, b"ab".to_vec())));
    assert_eq!(locate_line("ab", 10), None);
    assert_eq!(locate_line("", 0), None);
}

#[test]
fn lines_count_characters_not_bytes() {
    assert_eq!(locate_line("\u{e9}\nx", 3), Some((2, b"x".to_vec())));
    assert_eq!(locate_line("\u{e9}\nx", 2), Some((1, "\u{e9}".as_bytes().to_vec())));
}
