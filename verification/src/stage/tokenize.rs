//! The lexer of the current front end. Keywords must be followed by a
//! space, which is left in the input; integers may be written in hex with
//! `0x` or in binary with `0b`.
use crate::error::{Error, ErrorKind};
use crate::text::{bytes, bytes_eq, copy_bytes, copy_range, lemma_ascii_bytes, prefix_at, starts_with_at};
use crate::tokenize::{
    all_ascii, find_byte, is_alpha, is_ascii_whitespace, is_digit, skip_whitespace, NEWLINE, QUOTE,
    SPACE, UNDERSCORE,
};
use vstd::prelude::*;

verus! {

/// Where a token or an error stands in its source file: a range of byte
/// offsets.
#[derive(Debug, Clone, Copy, PartialEq, Eq, Structural)]
pub struct Span {
    pub start: usize,
    pub end: usize,
}

/// A source file: where it was read from and what it holds.
#[derive(Debug, PartialEq, Eq)]
pub struct SourceFile {
    pub path: String,
    pub content: String,
}

/// The kinds of token, generic over the text of identifiers and strings.
#[derive(Debug, Clone, PartialEq, Eq)]
pub enum TokenKindOf<S> {
    Ident(S),
    Integer(u64),
    Str(S),
    Let,
    Return,
    If,
    While,
    Fn,
    Const,
    Extern,
    Semi,
    Colon,
    Comma,
    OpenCurly,
    CloseCurly,
    OpenParen,
    CloseParen,
    Arrow,
    AddAssign,
    SubAssign,
    MulAssign,
    DivAssign,
    ModAssign,
    BitAndAssign,
    BitOrAssign,
    XorAssign,
    ShlAssign,
    ShrAssign,
    Eq,
    Equals,
    Ne,
    Shr,
    Ge,
    Gt,
    Shl,
    Le,
    Lt,
    And,
    BitAnd,
    Or,
    BitOr,
    Xor,
    Bang,
    Mod,
    Plus,
    Minus,
    Asterisk,
    Slash,
    Variadic,
}

pub type TokenKind = TokenKindOf<Vec<u8>>;

/// The mathematical value of a token kind.
pub type TokenKindV = TokenKindOf<Seq<u8>>;

impl View for TokenKindOf<Vec<u8>> {
    type V = TokenKindOf<Seq<u8>>;

    open spec fn view(&self) -> TokenKindOf<Seq<u8>> {
        match self {
            TokenKindOf::Ident(s) => TokenKindOf::Ident(s@),
            TokenKindOf::Integer(n) => TokenKindOf::Integer(*n),
            TokenKindOf::Str(s) => TokenKindOf::Str(s@),
            TokenKindOf::Let => TokenKindOf::Let,
            TokenKindOf::Return => TokenKindOf::Return,
            TokenKindOf::If => TokenKindOf::If,
            TokenKindOf::While => TokenKindOf::While,
            TokenKindOf::Fn => TokenKindOf::Fn,
            TokenKindOf::Const => TokenKindOf::Const,
            TokenKindOf::Extern => TokenKindOf::Extern,
            TokenKindOf::Semi => TokenKindOf::Semi,
            TokenKindOf::Colon => TokenKindOf::Colon,
            TokenKindOf::Comma => TokenKindOf::Comma,
            TokenKindOf::OpenCurly => TokenKindOf::OpenCurly,
            TokenKindOf::CloseCurly => TokenKindOf::CloseCurly,
            TokenKindOf::OpenParen => TokenKindOf::OpenParen,
            TokenKindOf::CloseParen => TokenKindOf::CloseParen,
            TokenKindOf::Arrow => TokenKindOf::Arrow,
            TokenKindOf::AddAssign => TokenKindOf::AddAssign,
            TokenKindOf::SubAssign => TokenKindOf::SubAssign,
            TokenKindOf::MulAssign => TokenKindOf::MulAssign,
            TokenKindOf::DivAssign => TokenKindOf::DivAssign,
            TokenKindOf::ModAssign => TokenKindOf::ModAssign,
            TokenKindOf::BitAndAssign => TokenKindOf::BitAndAssign,
            TokenKindOf::BitOrAssign => TokenKindOf::BitOrAssign,
            TokenKindOf::XorAssign => TokenKindOf::XorAssign,
            TokenKindOf::ShlAssign => TokenKindOf::ShlAssign,
            TokenKindOf::ShrAssign => TokenKindOf::ShrAssign,
            TokenKindOf::Eq => TokenKindOf::Eq,
            TokenKindOf::Equals => TokenKindOf::Equals,
            TokenKindOf::Ne => TokenKindOf::Ne,
            TokenKindOf::Shr => TokenKindOf::Shr,
            TokenKindOf::Ge => TokenKindOf::Ge,
            TokenKindOf::Gt => TokenKindOf::Gt,
            TokenKindOf::Shl => TokenKindOf::Shl,
            TokenKindOf::Le => TokenKindOf::Le,
            TokenKindOf::Lt => TokenKindOf::Lt,
            TokenKindOf::And => TokenKindOf::And,
            TokenKindOf::BitAnd => TokenKindOf::BitAnd,
            TokenKindOf::Or => TokenKindOf::Or,
            TokenKindOf::BitOr => TokenKindOf::BitOr,
            TokenKindOf::Xor => TokenKindOf::Xor,
            TokenKindOf::Bang => TokenKindOf::Bang,
            TokenKindOf::Mod => TokenKindOf::Mod,
            TokenKindOf::Plus => TokenKindOf::Plus,
            TokenKindOf::Minus => TokenKindOf::Minus,
            TokenKindOf::Asterisk => TokenKindOf::Asterisk,
            TokenKindOf::Slash => TokenKindOf::Slash,
            TokenKindOf::Variadic => TokenKindOf::Variadic,
        }
    }
}

impl TokenKindOf<Vec<u8>> {
    /// A copy of the token kind.
    pub fn copy(&self) -> (r: TokenKind)
        ensures
            r@ == self@,
    {
        match self {
            TokenKindOf::Ident(s) => TokenKindOf::Ident(copy_bytes(s)),
            TokenKindOf::Integer(n) => TokenKindOf::Integer(*n),
            TokenKindOf::Str(s) => TokenKindOf::Str(copy_bytes(s)),
            TokenKindOf::Let => TokenKindOf::Let,
            TokenKindOf::Return => TokenKindOf::Return,
            TokenKindOf::If => TokenKindOf::If,
            TokenKindOf::While => TokenKindOf::While,
            TokenKindOf::Fn => TokenKindOf::Fn,
            TokenKindOf::Const => TokenKindOf::Const,
            TokenKindOf::Extern => TokenKindOf::Extern,
            TokenKindOf::Semi => TokenKindOf::Semi,
            TokenKindOf::Colon => TokenKindOf::Colon,
            TokenKindOf::Comma => TokenKindOf::Comma,
            TokenKindOf::OpenCurly => TokenKindOf::OpenCurly,
            TokenKindOf::CloseCurly => TokenKindOf::CloseCurly,
            TokenKindOf::OpenParen => TokenKindOf::OpenParen,
            TokenKindOf::CloseParen => TokenKindOf::CloseParen,
            TokenKindOf::Arrow => TokenKindOf::Arrow,
            TokenKindOf::AddAssign => TokenKindOf::AddAssign,
            TokenKindOf::SubAssign => TokenKindOf::SubAssign,
            TokenKindOf::MulAssign => TokenKindOf::MulAssign,
            TokenKindOf::DivAssign => TokenKindOf::DivAssign,
            TokenKindOf::ModAssign => TokenKindOf::ModAssign,
            TokenKindOf::BitAndAssign => TokenKindOf::BitAndAssign,
            TokenKindOf::BitOrAssign => TokenKindOf::BitOrAssign,
            TokenKindOf::XorAssign => TokenKindOf::XorAssign,
            TokenKindOf::ShlAssign => TokenKindOf::ShlAssign,
            TokenKindOf::ShrAssign => TokenKindOf::ShrAssign,
            TokenKindOf::Eq => TokenKindOf::Eq,
            TokenKindOf::Equals => TokenKindOf::Equals,
            TokenKindOf::Ne => TokenKindOf::Ne,
            TokenKindOf::Shr => TokenKindOf::Shr,
            TokenKindOf::Ge => TokenKindOf::Ge,
            TokenKindOf::Gt => TokenKindOf::Gt,
            TokenKindOf::Shl => TokenKindOf::Shl,
            TokenKindOf::Le => TokenKindOf::Le,
            TokenKindOf::Lt => TokenKindOf::Lt,
            TokenKindOf::And => TokenKindOf::And,
            TokenKindOf::BitAnd => TokenKindOf::BitAnd,
            TokenKindOf::Or => TokenKindOf::Or,
            TokenKindOf::BitOr => TokenKindOf::BitOr,
            TokenKindOf::Xor => TokenKindOf::Xor,
            TokenKindOf::Bang => TokenKindOf::Bang,
            TokenKindOf::Mod => TokenKindOf::Mod,
            TokenKindOf::Plus => TokenKindOf::Plus,
            TokenKindOf::Minus => TokenKindOf::Minus,
            TokenKindOf::Asterisk => TokenKindOf::Asterisk,
            TokenKindOf::Slash => TokenKindOf::Slash,
            TokenKindOf::Variadic => TokenKindOf::Variadic,
        }
    }

    /// Whether two token kinds are equal, comparing text by content.
    pub fn same(&self, other: &TokenKind) -> (r: bool)
        ensures
            r == (self@ == other@),
    {
        match (self, other) {
            (TokenKindOf::Ident(a), TokenKindOf::Ident(b)) => bytes_eq(a, b),
            (TokenKindOf::Integer(a), TokenKindOf::Integer(b)) => *a == *b,
            (TokenKindOf::Str(a), TokenKindOf::Str(b)) => bytes_eq(a, b),
            (TokenKindOf::Let, TokenKindOf::Let) => true,
            (TokenKindOf::Return, TokenKindOf::Return) => true,
            (TokenKindOf::If, TokenKindOf::If) => true,
            (TokenKindOf::While, TokenKindOf::While) => true,
            (TokenKindOf::Fn, TokenKindOf::Fn) => true,
            (TokenKindOf::Const, TokenKindOf::Const) => true,
            (TokenKindOf::Extern, TokenKindOf::Extern) => true,
            (TokenKindOf::Semi, TokenKindOf::Semi) => true,
            (TokenKindOf::Colon, TokenKindOf::Colon) => true,
            (TokenKindOf::Comma, TokenKindOf::Comma) => true,
            (TokenKindOf::OpenCurly, TokenKindOf::OpenCurly) => true,
            (TokenKindOf::CloseCurly, TokenKindOf::CloseCurly) => true,
            (TokenKindOf::OpenParen, TokenKindOf::OpenParen) => true,
            (TokenKindOf::CloseParen, TokenKindOf::CloseParen) => true,
            (TokenKindOf::Arrow, TokenKindOf::Arrow) => true,
            (TokenKindOf::AddAssign, TokenKindOf::AddAssign) => true,
            (TokenKindOf::SubAssign, TokenKindOf::SubAssign) => true,
            (TokenKindOf::MulAssign, TokenKindOf::MulAssign) => true,
            (TokenKindOf::DivAssign, TokenKindOf::DivAssign) => true,
            (TokenKindOf::ModAssign, TokenKindOf::ModAssign) => true,
            (TokenKindOf::BitAndAssign, TokenKindOf::BitAndAssign) => true,
            (TokenKindOf::BitOrAssign, TokenKindOf::BitOrAssign) => true,
            (TokenKindOf::XorAssign, TokenKindOf::XorAssign) => true,
            (TokenKindOf::ShlAssign, TokenKindOf::ShlAssign) => true,
            (TokenKindOf::ShrAssign, TokenKindOf::ShrAssign) => true,
            (TokenKindOf::Eq, TokenKindOf::Eq) => true,
            (TokenKindOf::Equals, TokenKindOf::Equals) => true,
            (TokenKindOf::Ne, TokenKindOf::Ne) => true,
            (TokenKindOf::Shr, TokenKindOf::Shr) => true,
            (TokenKindOf::Ge, TokenKindOf::Ge) => true,
            (TokenKindOf::Gt, TokenKindOf::Gt) => true,
            (TokenKindOf::Shl, TokenKindOf::Shl) => true,
            (TokenKindOf::Le, TokenKindOf::Le) => true,
            (TokenKindOf::Lt, TokenKindOf::Lt) => true,
            (TokenKindOf::And, TokenKindOf::And) => true,
            (TokenKindOf::BitAnd, TokenKindOf::BitAnd) => true,
            (TokenKindOf::Or, TokenKindOf::Or) => true,
            (TokenKindOf::BitOr, TokenKindOf::BitOr) => true,
            (TokenKindOf::Xor, TokenKindOf::Xor) => true,
            (TokenKindOf::Bang, TokenKindOf::Bang) => true,
            (TokenKindOf::Mod, TokenKindOf::Mod) => true,
            (TokenKindOf::Plus, TokenKindOf::Plus) => true,
            (TokenKindOf::Minus, TokenKindOf::Minus) => true,
            (TokenKindOf::Asterisk, TokenKindOf::Asterisk) => true,
            (TokenKindOf::Slash, TokenKindOf::Slash) => true,
            (TokenKindOf::Variadic, TokenKindOf::Variadic) => true,
            _ => false,
        }
    }
}

/// The number of keywords and delimiters, tried in order.
pub const TABLE_LEN: usize = 46;

/// Entry `i` of the keyword and delimiter table: its kind, its text,
/// and whether it is a keyword, which must be followed by a space.
pub open spec fn table_entry(i: int) -> (TokenKindV, &'static str, bool) {
    if i == 0 {
        (TokenKindOf::Let, "let", true)
    } else if i == 1 {
        (TokenKindOf::Return, "return", true)
    } else if i == 2 {
        (TokenKindOf::If, "if", true)
    } else if i == 3 {
        (TokenKindOf::While, "while", true)
    } else if i == 4 {
        (TokenKindOf::Fn, "fn", true)
    } else if i == 5 {
        (TokenKindOf::Const, "const", true)
    } else if i == 6 {
        (TokenKindOf::Extern, "extern", true)
    } else if i == 7 {
        (TokenKindOf::Semi, ";", false)
    } else if i == 8 {
        (TokenKindOf::Colon, ":", false)
    } else if i == 9 {
        (TokenKindOf::Comma, ",", false)
    } else if i == 10 {
        (TokenKindOf::OpenCurly, "{", false)
    } else if i == 11 {
        (TokenKindOf::CloseCurly, "}", false)
    } else if i == 12 {
        (TokenKindOf::OpenParen, "(", false)
    } else if i == 13 {
        (TokenKindOf::CloseParen, ")", false)
    } else if i == 14 {
        (TokenKindOf::Arrow, "->", false)
    } else if i == 15 {
        (TokenKindOf::AddAssign, "+=", false)
    } else if i == 16 {
        (TokenKindOf::SubAssign, "-=", false)
    } else if i == 17 {
        (TokenKindOf::MulAssign, "*=", false)
    } else if i == 18 {
        (TokenKindOf::DivAssign, "/=", false)
    } else if i == 19 {
        (TokenKindOf::ModAssign, "%=", false)
    } else if i == 20 {
        (TokenKindOf::BitAndAssign, "&=", false)
    } else if i == 21 {
        (TokenKindOf::BitOrAssign, "|=", false)
    } else if i == 22 {
        (TokenKindOf::XorAssign, "^=", false)
    } else if i == 23 {
        (TokenKindOf::ShlAssign, "<<=", false)
    } else if i == 24 {
        (TokenKindOf::ShrAssign, ">>=", false)
    } else if i == 25 {
        (TokenKindOf::Eq, "==", false)
    } else if i == 26 {
        (TokenKindOf::Equals, "=", false)
    } else if i == 27 {
        (TokenKindOf::Ne, "!=", false)
    } else if i == 28 {
        (TokenKindOf::Shr, ">>", false)
    } else if i == 29 {
        (TokenKindOf::Ge, ">=", false)
    } else if i == 30 {
        (TokenKindOf::Gt, ">", false)
    } else if i == 31 {
        (TokenKindOf::Shl, "<<", false)
    } else if i == 32 {
        (TokenKindOf::Le, "<=", false)
    } else if i == 33 {
        (TokenKindOf::Lt, "<", false)
    } else if i == 34 {
        (TokenKindOf::And, "&&", false)
    } else if i == 35 {
        (TokenKindOf::BitAnd, "&", false)
    } else if i == 36 {
        (TokenKindOf::Or, "||", false)
    } else if i == 37 {
        (TokenKindOf::BitOr, "|", false)
    } else if i == 38 {
        (TokenKindOf::Xor, "^", false)
    } else if i == 39 {
        (TokenKindOf::Bang, "!", false)
    } else if i == 40 {
        (TokenKindOf::Mod, "%", false)
    } else if i == 41 {
        (TokenKindOf::Plus, "+", false)
    } else if i == 42 {
        (TokenKindOf::Minus, "-", false)
    } else if i == 43 {
        (TokenKindOf::Asterisk, "*", false)
    } else if i == 44 {
        (TokenKindOf::Slash, "/", false)
    } else {
        (TokenKindOf::Variadic, "...", false)
    }
}

/// Entry `i` of the keyword and delimiter table.
pub fn table_entry_exec(i: usize) -> (r: (TokenKind, &'static str, bool))
    requires
        i < TABLE_LEN,
    ensures
        r.0@ == table_entry(i as int).0,
        r.1 == table_entry(i as int).1,
        r.2 == table_entry(i as int).2,
{
    if i == 0 {
        (TokenKindOf::Let, "let", true)
    } else if i == 1 {
        (TokenKindOf::Return, "return", true)
    } else if i == 2 {
        (TokenKindOf::If, "if", true)
    } else if i == 3 {
        (TokenKindOf::While, "while", true)
    } else if i == 4 {
        (TokenKindOf::Fn, "fn", true)
    } else if i == 5 {
        (TokenKindOf::Const, "const", true)
    } else if i == 6 {
        (TokenKindOf::Extern, "extern", true)
    } else if i == 7 {
        (TokenKindOf::Semi, ";", false)
    } else if i == 8 {
        (TokenKindOf::Colon, ":", false)
    } else if i == 9 {
        (TokenKindOf::Comma, ",", false)
    } else if i == 10 {
        (TokenKindOf::OpenCurly, "{", false)
    } else if i == 11 {
        (TokenKindOf::CloseCurly, "}", false)
    } else if i == 12 {
        (TokenKindOf::OpenParen, "(", false)
    } else if i == 13 {
        (TokenKindOf::CloseParen, ")", false)
    } else if i == 14 {
        (TokenKindOf::Arrow, "->", false)
    } else if i == 15 {
        (TokenKindOf::AddAssign, "+=", false)
    } else if i == 16 {
        (TokenKindOf::SubAssign, "-=", false)
    } else if i == 17 {
        (TokenKindOf::MulAssign, "*=", false)
    } else if i == 18 {
        (TokenKindOf::DivAssign, "/=", false)
    } else if i == 19 {
        (TokenKindOf::ModAssign, "%=", false)
    } else if i == 20 {
        (TokenKindOf::BitAndAssign, "&=", false)
    } else if i == 21 {
        (TokenKindOf::BitOrAssign, "|=", false)
    } else if i == 22 {
        (TokenKindOf::XorAssign, "^=", false)
    } else if i == 23 {
        (TokenKindOf::ShlAssign, "<<=", false)
    } else if i == 24 {
        (TokenKindOf::ShrAssign, ">>=", false)
    } else if i == 25 {
        (TokenKindOf::Eq, "==", false)
    } else if i == 26 {
        (TokenKindOf::Equals, "=", false)
    } else if i == 27 {
        (TokenKindOf::Ne, "!=", false)
    } else if i == 28 {
        (TokenKindOf::Shr, ">>", false)
    } else if i == 29 {
        (TokenKindOf::Ge, ">=", false)
    } else if i == 30 {
        (TokenKindOf::Gt, ">", false)
    } else if i == 31 {
        (TokenKindOf::Shl, "<<", false)
    } else if i == 32 {
        (TokenKindOf::Le, "<=", false)
    } else if i == 33 {
        (TokenKindOf::Lt, "<", false)
    } else if i == 34 {
        (TokenKindOf::And, "&&", false)
    } else if i == 35 {
        (TokenKindOf::BitAnd, "&", false)
    } else if i == 36 {
        (TokenKindOf::Or, "||", false)
    } else if i == 37 {
        (TokenKindOf::BitOr, "|", false)
    } else if i == 38 {
        (TokenKindOf::Xor, "^", false)
    } else if i == 39 {
        (TokenKindOf::Bang, "!", false)
    } else if i == 40 {
        (TokenKindOf::Mod, "%", false)
    } else if i == 41 {
        (TokenKindOf::Plus, "+", false)
    } else if i == 42 {
        (TokenKindOf::Minus, "-", false)
    } else if i == 43 {
        (TokenKindOf::Asterisk, "*", false)
    } else if i == 44 {
        (TokenKindOf::Slash, "/", false)
    } else {
        (TokenKindOf::Variadic, "...", false)
    }
}
/// A token: its kind and where it stands in the source.
#[derive(Debug, Clone, PartialEq, Eq)]
pub struct TokenOf<S> {
    pub span: Span,
    pub kind: TokenKindOf<S>,
}

pub type Token = TokenOf<Vec<u8>>;

pub type TokenV = TokenOf<Seq<u8>>;

impl View for TokenOf<Vec<u8>> {
    type V = TokenOf<Seq<u8>>;

    open spec fn view(&self) -> TokenOf<Seq<u8>> {
        TokenOf { span: self.span, kind: self.kind@ }
    }
}

/// The tokens of a source file.
pub struct Tokens(pub Vec<Token>);

/// The values of a sequence of tokens.
pub open spec fn tokens_view(ts: Seq<Token>) -> Seq<TokenV> {
    ts.map_values(|t: Token| t@)
}

/// Whether `b` is a digit in base `radix`.
pub open spec fn is_radix_digit(b: u8, radix: nat) -> bool {
    if radix == 16 {
        is_digit(b) || (97 <= b <= 102) || (65 <= b <= 70)
    } else if radix == 2 {
        b == 48 || b == 49
    } else {
        is_digit(b)
    }
}

/// The value of a digit.
pub open spec fn digit_value(b: u8) -> nat {
    if is_digit(b) {
        (b - 48) as nat
    } else if 97 <= b <= 102 {
        (b - 87) as nat
    } else {
        (b - 55) as nat
    }
}

/// The value of a string of digits in base `radix`.
pub open spec fn radix_value(w: Seq<u8>, radix: nat) -> nat
    decreases w.len(),
{
    if w.len() == 0 {
        0
    } else {
        radix_value(w.drop_last(), radix) * radix + digit_value(w.last())
    }
}

/// The end of the run of digits in base `radix` from `i`.
pub open spec fn digits_end(s: Seq<u8>, i: int, radix: nat) -> int
    decreases s.len() - i,
{
    if 0 <= i < s.len() && is_radix_digit(s[i], radix) {
        digits_end(s, i + 1, radix)
    } else {
        i
    }
}

/// Whether `b` may continue an identifier.
pub open spec fn is_ident_byte(b: u8) -> bool {
    is_alpha(b) || is_digit(b) || b == UNDERSCORE
}

/// The end of the run of identifier bytes from `i`.
pub open spec fn ident_end(s: Seq<u8>, i: int) -> int
    decreases s.len() - i,
{
    if 0 <= i < s.len() && is_ident_byte(s[i]) {
        ident_end(s, i + 1)
    } else {
        i
    }
}

/// Whether table entry `e` matches the input at `j`: its text, and a space
/// after a keyword.
pub open spec fn entry_matches(s: Seq<u8>, j: int, e: int) -> bool {
    let text = bytes(table_entry(e).1);
    &&& prefix_at(s, j, text)
    &&& table_entry(e).2 ==> (j + text.len() < s.len() && s[j + text.len()] == SPACE)
}

/// The first table entry at or after `e` that matches at `j`.
pub open spec fn first_match(s: Seq<u8>, j: int, e: int) -> Option<int>
    decreases TABLE_LEN - e,
{
    if e < 0 || e >= TABLE_LEN {
        None
    } else if entry_matches(s, j, e) {
        Some(e)
    } else {
        first_match(s, j, e + 1)
    }
}

/// One step of the lexer.
pub enum Step {
    /// Only whitespace is left.
    Done,
    /// A comment was skipped; lexing goes on at the position.
    Skip(int),
    /// A token was read; lexing goes on at the position.
    Emit(TokenV, int),
    /// The input is rejected.
    Fail(Error),
    /// The lexer panics: it steps over a byte of a character that is not
    /// ASCII inside a comment or a string literal.
    Panics,
}

/// The error at `span` with message `msg`.
pub open spec fn custom(span: Span, msg: &'static str) -> Error {
    Error { span, kind: ErrorKind::Custom(msg) }
}

/// Where a comment that starts at `j` stops: before its newline, or at the
/// end of the input.
pub open spec fn comment_stop(s: Seq<u8>, j: int) -> int {
    match find_byte(s, j, NEWLINE) {
        Some(k) => k,
        None => s.len() as int,
    }
}

/// The string literal whose opening quote is at `j`.
pub open spec fn string_step(s: Seq<u8>, j: int) -> Step {
    match find_byte(s, j + 1, QUOTE) {
        None => if all_ascii(s.subrange(j + 1, s.len() as int)) {
            Step::Fail(custom(Span { start: j as usize, end: (j + 1) as usize }, "Missing matching `\"`"))
        } else {
            Step::Panics
        },
        Some(k) => if all_ascii(s.subrange(j + 1, k)) {
            Step::Emit(
                TokenOf {
                    span: Span { start: j as usize, end: (k + 1) as usize },
                    kind: TokenKindOf::Str(s.subrange(j + 1, k)),
                },
                k + 1,
            )
        } else {
            Step::Panics
        },
    }
}

/// The integer at `j`: a prefix of `p` bytes and digits in base `radix`.
pub open spec fn integer_step(s: Seq<u8>, j: int, p: int, radix: nat) -> Step {
    let e = digits_end(s, j + p, radix);
    let w = s.subrange(j + p, e);
    let span = Span { start: j as usize, end: e as usize };
    if w.len() > 0 && radix_value(w, radix) <= u64::MAX {
        Step::Emit(TokenOf { span, kind: TokenKindOf::Integer(radix_value(w, radix) as u64) }, e)
    } else {
        Step::Fail(custom(span, "Invalid integer"))
    }
}

/// The identifier at `j`, or the error for a byte that starts nothing.
pub open spec fn ident_step(s: Seq<u8>, j: int) -> Step {
    if is_alpha(s[j]) || s[j] == UNDERSCORE {
        let e = ident_end(s, j);
        Step::Emit(
            TokenOf {
                span: Span { start: j as usize, end: e as usize },
                kind: TokenKindOf::Ident(s.subrange(j, e)),
            },
            e,
        )
    } else {
        Step::Fail(custom(Span { start: j as usize, end: (j + 1) as usize }, "Invalid input"))
    }
}

/// What the lexer does from position `i`.
pub open spec fn step(s: Seq<u8>, i: int) -> Step {
    let j = skip_whitespace(s, i);
    if j >= s.len() {
        Step::Done
    } else if prefix_at(s, j, bytes("//")) {
        if all_ascii(s.subrange(j, comment_stop(s, j))) {
            Step::Skip(comment_stop(s, j))
        } else {
            Step::Panics
        }
    } else if s[j] == QUOTE {
        string_step(s, j)
    } else {
        match first_match(s, j, 0) {
            Some(e) => Step::Emit(
                TokenOf {
                    span: Span { start: j as usize, end: (j + bytes(table_entry(e).1).len()) as usize },
                    kind: table_entry(e).0,
                },
                j + bytes(table_entry(e).1).len(),
            ),
            None => if prefix_at(s, j, bytes("0x")) {
                integer_step(s, j, 2, 16)
            } else if prefix_at(s, j, bytes("0b")) {
                integer_step(s, j, 2, 2)
            } else if is_digit(s[j]) {
                integer_step(s, j, 0, 10)
            } else {
                ident_step(s, j)
            },
        }
    }
}

/// The outcome of lexing a whole input.
pub enum Lexed {
    Tokens(Seq<TokenV>),
    Failed(Error),
    Panics,
}

/// Lexing from position `i`, with the tokens `acc` already read.
pub open spec fn lex(s: Seq<u8>, i: int, acc: Seq<TokenV>) -> Lexed
    decreases s.len() - i,
{
    if i < 0 || i > s.len() {
        Lexed::Panics
    } else {
        match step(s, i) {
            Step::Done => Lexed::Tokens(acc),
            Step::Skip(k) => if i < k <= s.len() {
                lex(s, k, acc)
            } else {
                Lexed::Panics
            },
            Step::Emit(t, k) => if i < k <= s.len() {
                lex(s, k, acc.push(t))
            } else {
                Lexed::Panics
            },
            Step::Fail(e) => Lexed::Failed(e),
            Step::Panics => Lexed::Panics,
        }
    }
}

/// The outcome of lexing `s`.
pub open spec fn spec_tokenize(s: Seq<u8>) -> Lexed {
    lex(s, 0, seq![])
}

/// Every entry of the table has some text.
proof fn lemma_entry_nonempty(e: int)
    requires
        0 <= e < TABLE_LEN,
    ensures
        bytes(table_entry(e).1).len() > 0,
{
    if e == 0 {
        reveal_strlit("let");
        lemma_ascii_bytes("let");
    } else if e == 1 {
        reveal_strlit("return");
        lemma_ascii_bytes("return");
    } else if e == 2 {
        reveal_strlit("if");
        lemma_ascii_bytes("if");
    } else if e == 3 {
        reveal_strlit("while");
        lemma_ascii_bytes("while");
    } else if e == 4 {
        reveal_strlit("fn");
        lemma_ascii_bytes("fn");
    } else if e == 5 {
        reveal_strlit("const");
        lemma_ascii_bytes("const");
    } else if e == 6 {
        reveal_strlit("extern");
        lemma_ascii_bytes("extern");
    } else if e == 7 {
        reveal_strlit(";");
        lemma_ascii_bytes(";");
    } else if e == 8 {
        reveal_strlit(":");
        lemma_ascii_bytes(":");
    } else if e == 9 {
        reveal_strlit(",");
        lemma_ascii_bytes(",");
    } else if e == 10 {
        reveal_strlit("{");
        lemma_ascii_bytes("{");
    } else if e == 11 {
        reveal_strlit("}");
        lemma_ascii_bytes("}");
    } else if e == 12 {
        reveal_strlit("(");
        lemma_ascii_bytes("(");
    } else if e == 13 {
        reveal_strlit(")");
        lemma_ascii_bytes(")");
    } else if e == 14 {
        reveal_strlit("->");
        lemma_ascii_bytes("->");
    } else if e == 15 {
        reveal_strlit("+=");
        lemma_ascii_bytes("+=");
    } else if e == 16 {
        reveal_strlit("-=");
        lemma_ascii_bytes("-=");
    } else if e == 17 {
        reveal_strlit("*=");
        lemma_ascii_bytes("*=");
    } else if e == 18 {
        reveal_strlit("/=");
        lemma_ascii_bytes("/=");
    } else if e == 19 {
        reveal_strlit("%=");
        lemma_ascii_bytes("%=");
    } else if e == 20 {
        reveal_strlit("&=");
        lemma_ascii_bytes("&=");
    } else if e == 21 {
        reveal_strlit("|=");
        lemma_ascii_bytes("|=");
    } else if e == 22 {
        reveal_strlit("^=");
        lemma_ascii_bytes("^=");
    } else if e == 23 {
        reveal_strlit("<<=");
        lemma_ascii_bytes("<<=");
    } else if e == 24 {
        reveal_strlit(">>=");
        lemma_ascii_bytes(">>=");
    } else if e == 25 {
        reveal_strlit("==");
        lemma_ascii_bytes("==");
    } else if e == 26 {
        reveal_strlit("=");
        lemma_ascii_bytes("=");
    } else if e == 27 {
        reveal_strlit("!=");
        lemma_ascii_bytes("!=");
    } else if e == 28 {
        reveal_strlit(">>");
        lemma_ascii_bytes(">>");
    } else if e == 29 {
        reveal_strlit(">=");
        lemma_ascii_bytes(">=");
    } else if e == 30 {
        reveal_strlit(">");
        lemma_ascii_bytes(">");
    } else if e == 31 {
        reveal_strlit("<<");
        lemma_ascii_bytes("<<");
    } else if e == 32 {
        reveal_strlit("<=");
        lemma_ascii_bytes("<=");
    } else if e == 33 {
        reveal_strlit("<");
        lemma_ascii_bytes("<");
    } else if e == 34 {
        reveal_strlit("&&");
        lemma_ascii_bytes("&&");
    } else if e == 35 {
        reveal_strlit("&");
        lemma_ascii_bytes("&");
    } else if e == 36 {
        reveal_strlit("||");
        lemma_ascii_bytes("||");
    } else if e == 37 {
        reveal_strlit("|");
        lemma_ascii_bytes("|");
    } else if e == 38 {
        reveal_strlit("^");
        lemma_ascii_bytes("^");
    } else if e == 39 {
        reveal_strlit("!");
        lemma_ascii_bytes("!");
    } else if e == 40 {
        reveal_strlit("%");
        lemma_ascii_bytes("%");
    } else if e == 41 {
        reveal_strlit("+");
        lemma_ascii_bytes("+");
    } else if e == 42 {
        reveal_strlit("-");
        lemma_ascii_bytes("-");
    } else if e == 43 {
        reveal_strlit("*");
        lemma_ascii_bytes("*");
    } else if e == 44 {
        reveal_strlit("/");
        lemma_ascii_bytes("/");
    } else if e == 45 {
        reveal_strlit("...");
        lemma_ascii_bytes("...");
    }
}

proof fn lemma_skip_whitespace(s: Seq<u8>, i: int)
    requires
        0 <= i,
    ensures
        i <= skip_whitespace(s, i),
    decreases s.len() - i,
{
    if 0 <= i < s.len() && is_ascii_whitespace(s[i]) {
        lemma_skip_whitespace(s, i + 1);
    }
}

proof fn lemma_ident_end(s: Seq<u8>, i: int)
    ensures
        i <= ident_end(s, i),
        i <= s.len() ==> ident_end(s, i) <= s.len(),
    decreases s.len() - i,
{
    if 0 <= i < s.len() && is_ident_byte(s[i]) {
        lemma_ident_end(s, i + 1);
    }
}

proof fn lemma_digits_end(s: Seq<u8>, i: int, radix: nat)
    ensures
        i <= digits_end(s, i, radix),
        i <= s.len() ==> digits_end(s, i, radix) <= s.len(),
    decreases s.len() - i,
{
    if 0 <= i < s.len() && is_radix_digit(s[i], radix) {
        lemma_digits_end(s, i + 1, radix);
    }
}

proof fn lemma_first_match_range(s: Seq<u8>, j: int, e: int)
    ensures
        first_match(s, j, e) matches Some(x) ==> 0 <= x < TABLE_LEN && entry_matches(s, j, x),
    decreases TABLE_LEN - e,
{
    if 0 <= e < TABLE_LEN && !entry_matches(s, j, e) {
        lemma_first_match_range(s, j, e + 1);
    }
}

proof fn lemma_find_byte_range(s: Seq<u8>, i: int, b: u8)
    ensures
        find_byte(s, i, b) matches Some(k) ==> i <= k < s.len() && 0 <= k,
    decreases s.len() - i,
{
    if 0 <= i < s.len() && s[i] != b {
        lemma_find_byte_range(s, i + 1, b);
    }
}

/// A token that a step from `i` emits lies after `i`, over a non-empty
/// stretch that ends where lexing goes on.
proof fn lemma_step_span(s: Seq<u8>, i: int)
    requires
        0 <= i <= s.len(),
        s.len() <= usize::MAX,
    ensures
        step(s, i) matches Step::Emit(t, k) ==> i <= t.span.start < t.span.end && t.span.end == k
            && k <= s.len(),
{
    let j = skip_whitespace(s, i);
    lemma_skip_whitespace(s, i);
    if j < s.len() && !prefix_at(s, j, bytes("//")) {
        if s[j] == QUOTE {
            lemma_find_byte_range(s, j + 1, QUOTE);
        } else {
            lemma_first_match_range(s, j, 0);
            match first_match(s, j, 0) {
                Some(e) => {
                    lemma_entry_nonempty(e);
                },
                None => {
                    lemma_digits_end(s, j + 2, 16);
                    lemma_digits_end(s, j + 2, 2);
                    lemma_digits_end(s, j, 10);
                    lemma_ident_end(s, j);
                    lemma_ident_end(s, j + 1);
                    reveal_strlit("0x");
                    reveal_strlit("0b");
                    lemma_ascii_bytes("0x");
                    lemma_ascii_bytes("0b");
                },
            }
        }
    }
}

/// The spans of `ts` lie within the first `end` bytes, each over a
/// non-empty stretch, one after another without overlap.
pub open spec fn spans_in_order(ts: Seq<TokenV>, end: int) -> bool {
    &&& forall|a: int| 0 <= a < ts.len() ==> #[trigger] ts[a].span.start < ts[a].span.end <= end
    &&& forall|a: int, b: int| 0 <= a < b < ts.len() ==> #[trigger] ts[a].span.end <= #[trigger] ts[b].span.start
}

proof fn lemma_lex_in_order(s: Seq<u8>, i: int, acc: Seq<TokenV>)
    requires
        s.len() <= usize::MAX,
        spans_in_order(acc, i),
    ensures
        lex(s, i, acc) matches Lexed::Tokens(ts) ==> spans_in_order(ts, s.len() as int),
    decreases s.len() - i,
{
    if 0 <= i <= s.len() {
        lemma_step_span(s, i);
        match step(s, i) {
            Step::Done => {},
            Step::Skip(k) => {
                if i < k <= s.len() {
                    lemma_lex_in_order(s, k, acc);
                }
            },
            Step::Emit(t, k) => {
                if i < k <= s.len() {
                    let acc2 = acc.push(t);
                    assert forall|a: int, b: int| 0 <= a < b < acc2.len() implies #[trigger] acc2[a].span.end
                        <= #[trigger] acc2[b].span.start by {
                        if b == acc.len() {
                            assert(acc[a].span.start < acc[a].span.end);
                        }
                    }
                    assert(spans_in_order(acc2, k));
                    lemma_lex_in_order(s, k, acc2);
                }
            },
            _ => {},
        }
    }
}

/// The tokens of an input come in the order of its text, each over a
/// non-empty stretch of it, and no two overlap.
pub proof fn law_tokens_in_order(s: Seq<u8>)
    requires
        s.len() <= usize::MAX,
    ensures
        spec_tokenize(s) matches Lexed::Tokens(ts) ==> spans_in_order(ts, s.len() as int),
{
    lemma_lex_in_order(s, 0, seq![]);
}

fn ascii_whitespace(b: u8) -> (r: bool)
    ensures
        r == is_ascii_whitespace(b),
{
    b == 32 || b == 9 || b == 10 || b == 12 || b == 13
}

fn radix_digit(b: u8, radix: u64) -> (r: bool)
    ensures
        r == is_radix_digit(b, radix as nat),
{
    if radix == 16 {
        (48 <= b && b <= 57) || (97 <= b && b <= 102) || (65 <= b && b <= 70)
    } else if radix == 2 {
        b == 48 || b == 49
    } else {
        48 <= b && b <= 57
    }
}

fn ident_byte(b: u8) -> (r: bool)
    ensures
        r == is_ident_byte(b),
{
    (65 <= b && b <= 90) || (97 <= b && b <= 122) || (48 <= b && b <= 57) || b == UNDERSCORE
}

proof fn lemma_radix_value_prefix(w: Seq<u8>, k: int, radix: nat)
    requires
        0 <= k <= w.len(),
        radix >= 1,
    ensures
        radix_value(w.take(k), radix) <= radix_value(w, radix),
    decreases w.len(),
{
    if k < w.len() {
        lemma_radix_value_prefix(w.drop_last(), k, radix);
        assert(w.drop_last().take(k) =~= w.take(k));
        assert(radix_value(w.drop_last(), radix) <= radix_value(w.drop_last(), radix) * radix
            + digit_value(w.last())) by (nonlinear_arith)
            requires
                radix >= 1,
        ;
    } else {
        assert(w.take(k) =~= w);
    }
}

/// The value of a non-empty string of digits in base `radix`, or `None`
/// where there are no digits or the value exceeds `u64::MAX`.
fn parse_radix(w: &[u8], radix: u64) -> (r: Option<u64>)
    requires
        radix == 2 || radix == 10 || radix == 16,
        forall|k: int| 0 <= k < w@.len() ==> is_radix_digit(#[trigger] w@[k], radix as nat),
    ensures
        r matches Some(v) ==> w@.len() > 0 && radix_value(w@, radix as nat) == v,
        r is None ==> w@.len() == 0 || radix_value(w@, radix as nat) > u64::MAX,
{
    if w.len() == 0 {
        return None;
    }
    let mut acc: u64 = 0;
    let mut k: usize = 0;
    assert(w@.take(0) =~= Seq::<u8>::empty());
    while k < w.len()
        invariant
            0 <= k <= w@.len(),
            radix == 2 || radix == 10 || radix == 16,
            forall|m: int| 0 <= m < w@.len() ==> is_radix_digit(#[trigger] w@[m], radix as nat),
            acc == radix_value(w@.take(k as int), radix as nat),
        decreases w@.len() - k,
    {
        let b = w[k];
        let d: u64 = if 48 <= b && b <= 57 {
            (b - 48) as u64
        } else if 97 <= b && b <= 102 {
            (b - 87) as u64
        } else {
            (b - 55) as u64
        };
        assert(w@.take(k + 1).drop_last() =~= w@.take(k as int));
        assert(w@.take(k + 1).last() == b);
        match acc.checked_mul(radix) {
            Some(m) => match m.checked_add(d) {
                Some(v) => {
                    acc = v;
                },
                None => {
                    proof {
                        lemma_radix_value_prefix(w@, k + 1, radix as nat);
                    }
                    return None;
                },
            },
            None => {
                proof {
                    lemma_radix_value_prefix(w@, k + 1, radix as nat);
                    assert(radix_value(w@.take(k as int), radix as nat) * radix <= radix_value(
                        w@.take(k + 1),
                        radix as nat,
                    ));
                }
                return None;
            },
        }
        k += 1;
    }
    assert(w@.take(w@.len() as int) =~= w@);
    Some(acc)
}

/// Whether the bytes `s[from..to]` are all ASCII.
fn ascii_range(s: &[u8], from: usize, to: usize) -> (r: bool)
    requires
        from <= to <= s@.len(),
    ensures
        r == all_ascii(s@.subrange(from as int, to as int)),
{
    let mut k = from;
    while k < to
        invariant
            from <= k <= to <= s@.len(),
            forall|m: int| from <= m < k ==> s@[m] < 128,
        decreases to - k,
    {
        if s[k] >= 128 {
            assert(s@.subrange(from as int, to as int)[k - from] >= 128);
            return false;
        }
        k += 1;
    }
    assert forall|m: int| 0 <= m < to - from implies s@.subrange(from as int, to as int)[m] < 128 by {
        assert(s@.subrange(from as int, to as int)[m] == s@[from + m]);
    }
    true
}

/// Where `find_byte` finds a byte.
proof fn lemma_find_byte(s: Seq<u8>, i: int, b: u8)
    requires
        0 <= i,
    ensures
        find_byte(s, i, b) matches Some(k) ==> i <= k < s.len() && s[k] == b,
    decreases s.len() - i,
{
    if i < s.len() && s[i] != b {
        lemma_find_byte(s, i + 1, b);
    }
}

/// What one step of the lexer did.
enum Stepped {
    Done,
    Skipped,
    Emitted(Token),
    Failed(Error),
    Panicked,
}

/// A cursor over the bytes of a source file.
struct Tokenizer {
    input: Vec<u8>,
    index: usize,
}

impl Tokenizer {
    spec fn wf(&self) -> bool {
        self.index <= self.input@.len()
    }

    fn new(content: &str) -> (r: Tokenizer)
        ensures
            r.input@ == bytes(content),
            r.index == 0,
            r.wf(),
    {
        let b = content.as_bytes();
        let v = copy_range(b, 0, b.len());
        assert(b@.subrange(0, b@.len() as int) =~= b@);
        Tokenizer { input: v, index: 0 }
    }

    fn span(&self, start: usize, end: usize) -> (r: Span)
        ensures
            r == (Span { start, end }),
    {
        Span { start, end }
    }

    /// Whether the rest of the input starts with `b`.
    fn starts_with(&self, b: &[u8]) -> (r: bool)
        ensures
            r == prefix_at(self.input@, self.index as int, b@),
    {
        starts_with_at(self.input.as_slice(), self.index, b)
    }

    fn eat_whitespace(&mut self)
        requires
            old(self).wf(),
        ensures
            final(self).wf(),
            final(self).input@ == old(self).input@,
            final(self).index == skip_whitespace(old(self).input@, old(self).index as int),
    {
        while self.index < self.input.len() && ascii_whitespace(self.input[self.index])
            invariant
                self.wf(),
                self.input@ == old(self).input@,
                skip_whitespace(self.input@, self.index as int) == skip_whitespace(
                    old(self).input@,
                    old(self).index as int,
                ),
            decreases self.input@.len() - self.index,
        {
            self.index += 1;
        }
    }

    /// Skips a comment, up to its newline.
    fn eat_comment(&mut self) -> (r: bool)
        requires
            old(self).wf(),
        ensures
            final(self).wf(),
            final(self).input@ == old(self).input@,
            r == prefix_at(old(self).input@, old(self).index as int, bytes("//")),
            final(self).index == if r {
                comment_stop(old(self).input@, old(self).index as int)
            } else {
                old(self).index as int
            },
    {
        if self.starts_with("//".as_bytes()) {
            let ghost i = self.index;
            while self.index < self.input.len() && self.input[self.index] != NEWLINE
                invariant
                    self.wf(),
                    i <= self.index <= self.input@.len(),
                    self.input@ == old(self).input@,
                    i == old(self).index,
                    find_byte(self.input@, self.index as int, NEWLINE) == find_byte(
                        self.input@,
                        i as int,
                        NEWLINE,
                    ),
                decreases self.input@.len() - self.index,
            {
                self.index += 1;
            }
            true
        } else {
            false
        }
    }

    /// Reads a string literal where the input starts with a quote.
    fn eat_string(&mut self) -> (r: Stepped)
        requires
            old(self).wf(),
            old(self).index < old(self).input@.len(),
            old(self).input@[old(self).index as int] == QUOTE,
        ensures
            final(self).wf(),
            final(self).input@ == old(self).input@,
            match string_step(old(self).input@, old(self).index as int) {
                Step::Emit(t, k) => r matches Stepped::Emitted(x) && x@ == t && final(self).index == k,
                Step::Fail(e) => r matches Stepped::Failed(x) && x == e,
                Step::Panics => r is Panicked,
                _ => false,
            },
    {
        let start = self.index;
        let n = self.input.len();
        let mut k = start + 1;
        while k < self.input.len() && self.input[k] != QUOTE
            invariant
                self.wf(),
                start < k <= self.input@.len(),
                find_byte(self.input@, k as int, QUOTE) == find_byte(self.input@, start + 1, QUOTE),
            decreases self.input@.len() - k,
        {
            k += 1;
        }
        if !ascii_range(self.input.as_slice(), start + 1, k) {
            return Stepped::Panicked;
        }
        if k >= self.input.len() {
            let span = self.span(start, start + 1);
            return Stepped::Failed(span.custom("Missing matching `\"`"));
        }
        let text = copy_range(self.input.as_slice(), start + 1, k);
        self.index = k + 1;
        Stepped::Emitted(TokenOf { span: self.span(start, k + 1), kind: TokenKindOf::Str(text) })
    }

    /// Reads the first keyword or delimiter of the table that matches here.
    fn eat_keyword_or_delimiter(&mut self) -> (r: Option<Token>)
        requires
            old(self).wf(),
        ensures
            final(self).wf(),
            final(self).input@ == old(self).input@,
            match first_match(old(self).input@, old(self).index as int, 0) {
                Some(e) => r matches Some(t) && t@ == (TokenOf {
                    span: Span {
                        start: old(self).index,
                        end: (old(self).index + bytes(table_entry(e).1).len()) as usize,
                    },
                    kind: table_entry(e).0,
                }) && final(self).index == old(self).index + bytes(table_entry(e).1).len(),
                None => r is None && final(self).index == old(self).index,
            },
    {
        let i = self.index;
        let mut e: usize = 0;
        while e < TABLE_LEN
            invariant
                self.wf(),
                self.index == i,
                i == old(self).index,
                self.input@ == old(self).input@,
                self.input@.len() == self.input.len(),
                0 <= e <= TABLE_LEN,
                first_match(self.input@, i as int, 0) == first_match(self.input@, i as int, e as int),
            decreases TABLE_LEN - e,
        {
            let (kind, text, keyword) = table_entry_exec(e);
            let t = text.as_bytes();
            if starts_with_at(self.input.as_slice(), i, t) && (!keyword || (i + t.len()
                < self.input.len() && self.input[i + t.len()] == SPACE)) {
                assert(entry_matches(self.input@, i as int, e as int));
                assert(first_match(self.input@, i as int, e as int) == Some(e as int));
                self.index = i + t.len();
                return Some(TokenOf { span: self.span(i, i + t.len()), kind });
            }
            e += 1;
        }
        None
    }

    /// Reads an integer with a prefix of `p` bytes and digits in base
    /// `radix`.
    fn eat_integer_radix(&mut self, p: usize, radix: u64) -> (r: Result<Option<Token>, Error>)
        requires
            old(self).wf(),
            old(self).index + p <= old(self).input@.len(),
            radix == 2 || radix == 10 || radix == 16,
        ensures
            final(self).wf(),
            final(self).input@ == old(self).input@,
            match integer_step(old(self).input@, old(self).index as int, p as int, radix as nat) {
                Step::Emit(t, k) => r matches Ok(Some(x)) && x@ == t && final(self).index == k,
                Step::Fail(e) => r matches Err(x) && x == e,
                _ => false,
            },
    {
        let start = self.index;
        let n = self.input.len();
        let mut e = start + p;
        while e < self.input.len() && radix_digit(self.input[e], radix)
            invariant
                self.wf(),
                start + p <= e <= self.input@.len(),
                digits_end(self.input@, e as int, radix as nat) == digits_end(
                    self.input@,
                    start + p,
                    radix as nat,
                ),
                forall|m: int| start + p <= m < e ==> is_radix_digit(#[trigger] self.input@[m], radix as nat),
            decreases self.input@.len() - e,
        {
            e += 1;
        }
        let w = copy_range(self.input.as_slice(), start + p, e);
        self.index = e;
        let span = self.span(start, e);
        match parse_radix(w.as_slice(), radix) {
            Some(v) => Ok(Some(TokenOf { span, kind: TokenKindOf::Integer(v) })),
            None => Err(span.custom("Invalid integer")),
        }
    }

    /// Reads an identifier, or rejects a byte that starts nothing.
    fn eat_ident(&mut self) -> (r: Result<Option<Token>, Error>)
        requires
            old(self).wf(),
            old(self).index < old(self).input@.len(),
        ensures
            final(self).wf(),
            final(self).input@ == old(self).input@,
            match ident_step(old(self).input@, old(self).index as int) {
                Step::Emit(t, k) => r matches Ok(Some(x)) && x@ == t && final(self).index == k,
                Step::Fail(e) => r matches Err(x) && x == e,
                _ => false,
            },
    {
        let start = self.index;
        let n = self.input.len();
        let b = self.input[start];
        if (65 <= b && b <= 90) || (97 <= b && b <= 122) || b == UNDERSCORE {
            let mut e = start;
            while e < self.input.len() && ident_byte(self.input[e])
                invariant
                    self.wf(),
                    start <= e <= self.input@.len(),
                    ident_end(self.input@, e as int) == ident_end(self.input@, start as int),
                decreases self.input@.len() - e,
            {
                e += 1;
            }
            let w = copy_range(self.input.as_slice(), start, e);
            self.index = e;
            Ok(Some(TokenOf { span: self.span(start, e), kind: TokenKindOf::Ident(w) }))
        } else {
            Err(self.span(start, start + 1).custom("Invalid input"))
        }
    }

    /// Reads an integer where the input starts with a digit.
    fn eat_integer(&mut self) -> (r: Result<Option<Token>, Error>)
        requires
            old(self).wf(),
            old(self).index < old(self).input@.len(),
        ensures
            final(self).wf(),
            final(self).input@ == old(self).input@,
            prefix_at(old(self).input@, old(self).index as int, bytes("0x")) ==> match integer_step(
                old(self).input@,
                old(self).index as int,
                2,
                16,
            ) {
                Step::Emit(t, k) => r matches Ok(Some(x)) && x@ == t && final(self).index == k,
                Step::Fail(e) => r matches Err(x) && x == e,
                _ => false,
            },
            !prefix_at(old(self).input@, old(self).index as int, bytes("0x")) && prefix_at(
                old(self).input@,
                old(self).index as int,
                bytes("0b"),
            ) ==> match integer_step(old(self).input@, old(self).index as int, 2, 2) {
                Step::Emit(t, k) => r matches Ok(Some(x)) && x@ == t && final(self).index == k,
                Step::Fail(e) => r matches Err(x) && x == e,
                _ => false,
            },
            !prefix_at(old(self).input@, old(self).index as int, bytes("0x")) && !prefix_at(
                old(self).input@,
                old(self).index as int,
                bytes("0b"),
            ) && is_digit(old(self).input@[old(self).index as int]) ==> match integer_step(
                old(self).input@,
                old(self).index as int,
                0,
                10,
            ) {
                Step::Emit(t, k) => r matches Ok(Some(x)) && x@ == t && final(self).index == k,
                Step::Fail(e) => r matches Err(x) && x == e,
                _ => false,
            },
            !prefix_at(old(self).input@, old(self).index as int, bytes("0x")) && !prefix_at(
                old(self).input@,
                old(self).index as int,
                bytes("0b"),
            ) && !is_digit(old(self).input@[old(self).index as int]) ==> (r matches Ok(None)
                && final(self).index == old(self).index),
    {
        proof {
            reveal_strlit("0x");
            reveal_strlit("0b");
            lemma_ascii_bytes("0x");
            lemma_ascii_bytes("0b");
        }
        if self.starts_with("0x".as_bytes()) {
            self.eat_integer_radix(2, 16)
        } else if self.starts_with("0b".as_bytes()) {
            self.eat_integer_radix(2, 2)
        } else if 48 <= self.input[self.index] && self.input[self.index] <= 57 {
            self.eat_integer_radix(0, 10)
        } else {
            Ok(None)
        }
    }
}


impl Tokenizer {
    /// Reads the next token, or skips the next comment.
    fn step(&mut self) -> (r: Stepped)
        requires
            old(self).wf(),
        ensures
            final(self).wf(),
            final(self).input@ == old(self).input@,
            match step(old(self).input@, old(self).index as int) {
                Step::Done => r is Done,
                Step::Skip(k) => r is Skipped && final(self).index == k,
                Step::Emit(t, k) => r matches Stepped::Emitted(x) && x@ == t && final(self).index
                    == k,
                Step::Fail(e) => r matches Stepped::Failed(x) && x == e,
                Step::Panics => r is Panicked,
            },
    {
        self.eat_whitespace();
        if self.index >= self.input.len() {
            return Stepped::Done;
        }
        let start = self.index;
        proof {
            lemma_find_byte(self.input@, start as int, NEWLINE);
        }
        if self.eat_comment() {
            if !ascii_range(self.input.as_slice(), start, self.index) {
                return Stepped::Panicked;
            }
            return Stepped::Skipped;
        }
        if self.input[self.index] == QUOTE {
            return self.eat_string();
        }
        match self.eat_keyword_or_delimiter() {
            Some(t) => {
                return Stepped::Emitted(t);
            },
            None => {},
        }
        match self.eat_integer() {
            Ok(Some(t)) => {
                return Stepped::Emitted(t);
            },
            Err(e) => {
                return Stepped::Failed(e);
            },
            Ok(None) => {},
        }
        match self.eat_ident() {
            Ok(Some(t)) => Stepped::Emitted(t),
            Ok(None) => Stepped::Done,
            Err(e) => Stepped::Failed(e),
        }
    }
}

/// Splits the content of a source file into tokens, or gives `None`
/// where lexing panics: on a character that is not ASCII inside a comment
/// or a string literal.
pub fn try_tokenize(content: &str) -> (r: Option<Result<Vec<Token>, Error>>)
    ensures
        match spec_tokenize(bytes(content)) {
            Lexed::Tokens(ts) => r matches Some(Ok(v)) && tokens_view(v@) == ts,
            Lexed::Failed(e) => r matches Some(Err(x)) && x == e,
            Lexed::Panics => r is None,
        },
{
    let ghost s = bytes(content);
    let mut tok = Tokenizer::new(content);
    let mut tokens: Vec<Token> = Vec::new();
    assert(tokens_view(tokens@) =~= Seq::<TokenV>::empty());
    loop
        invariant
            tok.wf(),
            tok.input@ == s,
            s == bytes(content),
            lex(s, tok.index as int, tokens_view(tokens@)) == spec_tokenize(s),
        decreases s.len() - tok.index,
    {
        let ix = tok.index;
        let ghost acc = tokens_view(tokens@);
        match tok.step() {
            Stepped::Done => {
                assert(step(s, ix as int) is Done);
                return Some(Ok(tokens));
            },
            Stepped::Skipped => {
                if tok.index <= ix {
                    return None;
                }
            },
            Stepped::Emitted(t) => {
                if tok.index <= ix {
                    return None;
                }
                let ghost tv = t@;
                tokens.push(t);
                assert(tokens_view(tokens@) =~= acc.push(tv));
            },
            Stepped::Failed(e) => {
                return Some(Err(e));
            },
            Stepped::Panicked => {
                return None;
            },
        }
    }
}

/// Splits the content of a source file into tokens.
pub fn tokenize(content: &str) -> (r: Result<Vec<Token>, Error>)
    requires
        !(spec_tokenize(bytes(content)) is Panics),
    ensures
        match spec_tokenize(bytes(content)) {
            Lexed::Tokens(ts) => r matches Ok(v) && tokens_view(v@) == ts,
            Lexed::Failed(e) => r matches Err(x) && x == e,
            Lexed::Panics => false,
        },
{
    match try_tokenize(content) {
        Some(r) => r,
        None => Ok(Vec::new()),
    }
}

/// Lexing of several source files, file after file: the tokens of each, or
/// the error of the first file that fails; `None` where the lexer panics on
/// a file before that.
pub open spec fn spec_tokenize_files(files: Seq<Seq<u8>>) -> Option<Result<Seq<Seq<TokenV>>, Error>>
    decreases files.len(),
{
    if files.len() == 0 {
        Some(Ok(seq![]))
    } else {
        match spec_tokenize_files(files.drop_last()) {
            Some(Ok(done)) => match spec_tokenize(files.last()) {
                Lexed::Tokens(ts) => Some(Ok(done.push(ts))),
                Lexed::Failed(e) => Some(Err(e)),
                Lexed::Panics => None,
            },
            other => other,
        }
    }
}

/// The bytes of several source texts.
pub open spec fn files_bytes(files: Seq<&str>) -> Seq<Seq<u8>> {
    files.map_values(|f: &str| bytes(f))
}

/// The tokens of several token lists.
pub open spec fn token_lists_view(lists: Seq<Vec<Token>>) -> Seq<Seq<TokenV>> {
    lists.map_values(|l: Vec<Token>| tokens_view(l@))
}

/// Once lexing a prefix of the files ends without tokens, lexing every
/// longer prefix ends the same.
proof fn lemma_tokenize_files_stop(files: Seq<Seq<u8>>, i: int, j: int)
    requires
        0 <= i < j <= files.len(),
        !(spec_tokenize_files(files.subrange(0, i + 1)) matches Some(Ok(_))),
    ensures
        spec_tokenize_files(files.subrange(0, j)) == spec_tokenize_files(files.subrange(0, i + 1)),
    decreases j,
{
    if j > i + 1 {
        lemma_tokenize_files_stop(files, i, j - 1);
        assert(files.subrange(0, j).drop_last() =~= files.subrange(0, j - 1));
    }
}

/// Lexes every source file, file after file.
pub fn tokenize_files(files: &Vec<&str>) -> (r: Option<Result<Vec<Vec<Token>>, Error>>)
    ensures
        match spec_tokenize_files(files_bytes(files@)) {
            Some(Ok(lists)) => r matches Some(Ok(v)) && token_lists_view(v@) == lists,
            Some(Err(e)) => r matches Some(Err(x)) && x == e,
            None => r is None,
        },
{
    let ghost fb = files_bytes(files@);
    let mut out: Vec<Vec<Token>> = Vec::new();
    assert(fb.subrange(0, 0) =~= Seq::<Seq<u8>>::empty());
    assert(token_lists_view(out@) =~= Seq::<Seq<TokenV>>::empty());
    let mut i: usize = 0;
    while i < files.len()
        invariant
            0 <= i <= files@.len(),
            fb == files_bytes(files@),
            spec_tokenize_files(fb.subrange(0, i as int)) == Some(
                Ok::<Seq<Seq<TokenV>>, Error>(token_lists_view(out@)),
            ),
        decreases files@.len() - i,
    {
        assert(fb.subrange(0, i + 1).drop_last() =~= fb.subrange(0, i as int));
        assert(fb.subrange(0, i + 1).last() == bytes(files@[i as int]));
        match try_tokenize(files[i]) {
            Some(Ok(ts)) => {
                let ghost before = out@;
                out.push(ts);
                assert(token_lists_view(out@) =~= token_lists_view(before).push(tokens_view(ts@)));
            },
            Some(Err(e)) => {
                proof {
                    lemma_tokenize_files_stop(fb, i as int, files@.len() as int);
                    assert(fb.subrange(0, files@.len() as int) =~= fb);
                }
                return Some(Err(e));
            },
            None => {
                proof {
                    lemma_tokenize_files_stop(fb, i as int, files@.len() as int);
                    assert(fb.subrange(0, files@.len() as int) =~= fb);
                }
                return None;
            },
        }
        i = i + 1;
    }
    assert(fb.subrange(0, files@.len() as int) =~= fb);
    Some(Ok(out))
}

} // verus!
