use slang::tokenize::{tokenize, try_tokenize, Error, ErrorKind, Span, Token, TokenKind, Tokenizer};

fn check_whitespace(input: &str, index: usize) {
    let mut tok = Tokenizer::new(input);
    tok.eat_whitespace();
    assert_eq!(tok.index, index);
}

fn check_comment(input: &str, index: usize) {
    let mut tok = Tokenizer::new(input);
    tok.eat_comment();
    assert_eq!(tok.index, index);
}

fn check_string(input: &str, index: usize, result: Result<Option<TokenKind>, Error>) {
    let mut tok = Tokenizer::new(input);
    let r = tok.eat_string().map(|t| t.map(|t| t.kind));
    assert_eq!(tok.index, index);
    assert_eq!(result, r);
}

#[test]
fn whitespace() {
    check_whitespace("   Hello, World!", 3);
    check_whitespace("Hello, World!", 0);
    check_whitespace("Hello, World!   ", 0);
}

#[test]
fn comments() {
    check_comment("// Hello", 8);
    check_comment("// Hello\nWorld!", 9);
}

#[test]
fn string() {
    check_string(
        "\"I am a string!\"",
        16,
        Ok(Some(TokenKind::Str(b"I am a string!".to_vec()))),
    );
    check_string(
        "\"I am a string!\"// comment",
        16,
        Ok(Some(TokenKind::Str(b"I am a string!".to_vec()))),
    );
    check_string("// Hello\nWorld!", 0, Ok(None));
    check_string(
        "\"broken",
        0,
        Err(Error {
            kind: ErrorKind::StrDelim,
            index: 0,
        }),
    );
}

fn kinds(input: &str) -> Vec<TokenKind> {
    tokenize(input).unwrap().into_iter().map(|t| t.kind).collect()
}

#[test]
fn keywords_need_a_space() {
    assert_eq!(
        kinds("let x = 5;"),
        vec![
            TokenKind::Let,
            TokenKind::Ident(b"x".to_vec()),
            TokenKind::Equals,
            TokenKind::Integer(5),
            TokenKind::Semi,
        ]
    );
    assert_eq!(kinds("letx"), vec![TokenKind::Ident(b"letx".to_vec())]);
}

#[test]
fn delimiters_longest_first() {
    assert_eq!(
        kinds("a->b <<= c >= d"),
        vec![
            TokenKind::Ident(b"a".to_vec()),
            TokenKind::Arrow,
            TokenKind::Ident(b"b".to_vec()),
            TokenKind::Shl,
            TokenKind::Equals,
            TokenKind::Ident(b"c".to_vec()),
            TokenKind::Ge,
            TokenKind::Ident(b"d".to_vec()),
        ]
    );
}

#[test]
fn token_spans() {
    let tokens: Vec<Token> = tokenize("fn main").unwrap();
    assert_eq!(tokens[0].span, Span { start: 0, end: 3 });
    assert_eq!(tokens[1].span, Span { start: 3, end: 7 });
}

#[test]
fn integer_too_large_is_an_error() {
    let r = tokenize("99999999999999999999");
    assert_eq!(
        r,
        Err(Error {
            kind: ErrorKind::Integer(b"99999999999999999999".to_vec()),
            index: 0,
        })
    );
    assert_eq!(kinds("18446744073709551615"), vec![TokenKind::Integer(u64::MAX)]);
}

#[test]
fn bad_identifier_is_an_error() {
    assert_eq!(
        tokenize("1abc"),
        Err(Error {
            kind: ErrorKind::Ident(b"1abc".to_vec()),
            index: 0,
        })
    );
}

#[test]
fn comments_are_skipped() {
    assert_eq!(
        kinds("// nothing\nreturn x;"),
        vec![TokenKind::Return, TokenKind::Ident(b"x".to_vec()), TokenKind::Semi]
    );
    assert_eq!(kinds("   \n\t "), vec![]);
}

#[test]
fn span_collapse_covers_both() {
    let a = Span { start: 4, end: 9 };
    let b = Span { start: 2, end: 5 };
    assert_eq!(a.collapse(b), Span { start: 2, end: 9 });
}

#[test]
fn string_measured_in_characters_cut_in_bytes() {
    check_string(
        "\"\u{e9}ab\"",
        5,
        Ok(Some(TokenKind::Str("\u{e9}a".as_bytes().to_vec()))),
    );
    let mut tok = Tokenizer::new("\"\u{e9}ab\"");
    let t = tok.eat_string().unwrap().unwrap();
    assert_eq!(t.span, Span { start: 0, end: 3 });
    assert_eq!(try_tokenize("\"\u{e9}\""), None);
}

#[test]
fn word_measured_in_characters_cut_in_bytes() {
    let tokens = tokenize("\u{e9}a").unwrap();
    assert_eq!(tokens.len(), 2);
    assert_eq!(tokens[0].kind, TokenKind::Ident("\u{e9}".as_bytes().to_vec()));
    assert_eq!(tokens[0].span, Span { start: 0, end: 2 });
    assert_eq!(tokens[1].kind, TokenKind::Ident(b"a".to_vec()));
    assert_eq!(tokens[1].span, Span { start: 2, end: 3 });
    assert_eq!(try_tokenize("\u{e9}"), None);
    assert_eq!(try_tokenize("12\u{e9}"), None);
}

#[test]
fn unicode_whitespace_ends_a_word_but_is_not_skipped() {
    assert_eq!(try_tokenize("a\u{a0}b"), None);
}

#[test]
fn unicode_digits_are_numeric_but_no_integer() {
    assert_eq!(
        tokenize("\u{663}\u{663}"),
        Err(Error {
            kind: ErrorKind::Integer("\u{663}".as_bytes().to_vec()),
            index: 0,
        })
    );
}

#[test]
fn word_starting_with_a_symbol_is_an_error() {
    assert_eq!(
        tokenize("\u{20ac}ab"),
        Err(Error {
            kind: ErrorKind::Ident("\u{20ac}".as_bytes().to_vec()),
            index: 0,
        })
    );
}

#[test]
fn colon_and_compound_assignments_are_not_tokens() {
    assert_eq!(kinds("a:b"), vec![TokenKind::Ident(b"a:b".to_vec())]);
    assert_eq!(
        kinds("x += 1"),
        vec![
            TokenKind::Ident(b"x".to_vec()),
            TokenKind::Plus,
            TokenKind::Equals,
            TokenKind::Integer(1),
        ]
    );
}
