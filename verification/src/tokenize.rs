//! A lexer for the first version of the language: keywords are followed by
//! a space, and words that are neither keywords nor delimiters are
//! classified as integers or identifiers as a whole.
use crate::text::{lemma_ascii_bytes, 
    bytes, bytes_eq, copy_bytes, copy_range, prefix_at, push_bytes, push_decimal, push_str, starts_with_at,
};
use vstd::prelude::*;

verus! {

pub const TAB: u8 = 9;
pub const NEWLINE: u8 = 10;
pub const VERTICAL_TAB: u8 = 11;
pub const FORM_FEED: u8 = 12;
pub const CARRIAGE_RETURN: u8 = 13;
pub const SPACE: u8 = 32;
pub const QUOTE: u8 = 34;
pub const UNDERSCORE: u8 = 95;

/// A range of byte offsets into the source.
#[derive(Debug, Default, Clone, Copy, PartialEq, Eq, Structural)]
pub struct Span {
    pub start: usize,
    pub end: usize,
}

impl Span {
    pub open spec fn spec_collapse(self, other: Span) -> Span {
        Span {
            start: if self.start <= other.start { self.start } else { other.start },
            end: if self.end >= other.end { self.end } else { other.end },
        }
    }

    /// The smallest span that covers both spans.
    pub fn collapse(self, other: Span) -> (r: Span)
        ensures
            r == self.spec_collapse(other),
    {
        Span {
            start: if self.start <= other.start { self.start } else { other.start },
            end: if self.end >= other.end { self.end } else { other.end },
        }
    }
}

/// The kinds of token, generic over the text of identifiers and strings.
/// The parser knows a colon and the compound assignments, which the lexer
/// here never makes: its table has no entry for them, so `a:b` is one
/// word and `+=` is a plus and an equals sign.
#[derive(Debug, PartialEq, Eq)]
pub enum TokenKindOf<S> {
    Ident(S),
    Integer(u64),
    Str(S),
    Let,
    Return,
    If,
    While,
    Fn,
    Semi,
    Colon,
    Comma,
    OpenCurly,
    CloseCurly,
    OpenParen,
    CloseParen,
    Arrow,
    AddAssign,
    SubAssign,
    MulAssign,
    DivAssign,
    ModAssign,
    BitAndAssign,
    BitOrAssign,
    XorAssign,
    ShlAssign,
    ShrAssign,
    Eq,
    Ne,
    Shr,
    Ge,
    Gt,
    Shl,
    Le,
    Lt,
    And,
    BitAnd,
    Or,
    BitOr,
    Xor,
    Not,
    Mod,
    Equals,
    Plus,
    Minus,
    Asterisk,
    Slash,
    Variadic,
}

pub type TokenKind = TokenKindOf<Vec<u8>>;

/// The mathematical value of a token kind.
pub type TokenKindV = TokenKindOf<Seq<u8>>;

impl View for TokenKindOf<Vec<u8>> {
    type V = TokenKindOf<Seq<u8>>;

    open spec fn view(&self) -> TokenKindOf<Seq<u8>> {
        match self {
            TokenKindOf::Ident(s) => TokenKindOf::Ident(s@),
            TokenKindOf::Integer(n) => TokenKindOf::Integer(*n),
            TokenKindOf::Str(s) => TokenKindOf::Str(s@),
            TokenKindOf::Let => TokenKindOf::Let,
            TokenKindOf::Return => TokenKindOf::Return,
            TokenKindOf::If => TokenKindOf::If,
            TokenKindOf::While => TokenKindOf::While,
            TokenKindOf::Fn => TokenKindOf::Fn,
            TokenKindOf::Semi => TokenKindOf::Semi,
            TokenKindOf::Colon => TokenKindOf::Colon,
            TokenKindOf::Comma => TokenKindOf::Comma,
            TokenKindOf::OpenCurly => TokenKindOf::OpenCurly,
            TokenKindOf::CloseCurly => TokenKindOf::CloseCurly,
            TokenKindOf::OpenParen => TokenKindOf::OpenParen,
            TokenKindOf::CloseParen => TokenKindOf::CloseParen,
            TokenKindOf::Arrow => TokenKindOf::Arrow,
            TokenKindOf::AddAssign => TokenKindOf::AddAssign,
            TokenKindOf::SubAssign => TokenKindOf::SubAssign,
            TokenKindOf::MulAssign => TokenKindOf::MulAssign,
            TokenKindOf::DivAssign => TokenKindOf::DivAssign,
            TokenKindOf::ModAssign => TokenKindOf::ModAssign,
            TokenKindOf::BitAndAssign => TokenKindOf::BitAndAssign,
            TokenKindOf::BitOrAssign => TokenKindOf::BitOrAssign,
            TokenKindOf::XorAssign => TokenKindOf::XorAssign,
            TokenKindOf::ShlAssign => TokenKindOf::ShlAssign,
            TokenKindOf::ShrAssign => TokenKindOf::ShrAssign,
            TokenKindOf::Eq => TokenKindOf::Eq,
            TokenKindOf::Ne => TokenKindOf::Ne,
            TokenKindOf::Shr => TokenKindOf::Shr,
            TokenKindOf::Ge => TokenKindOf::Ge,
            TokenKindOf::Gt => TokenKindOf::Gt,
            TokenKindOf::Shl => TokenKindOf::Shl,
            TokenKindOf::Le => TokenKindOf::Le,
            TokenKindOf::Lt => TokenKindOf::Lt,
            TokenKindOf::And => TokenKindOf::And,
            TokenKindOf::BitAnd => TokenKindOf::BitAnd,
            TokenKindOf::Or => TokenKindOf::Or,
            TokenKindOf::BitOr => TokenKindOf::BitOr,
            TokenKindOf::Xor => TokenKindOf::Xor,
            TokenKindOf::Not => TokenKindOf::Not,
            TokenKindOf::Mod => TokenKindOf::Mod,
            TokenKindOf::Equals => TokenKindOf::Equals,
            TokenKindOf::Plus => TokenKindOf::Plus,
            TokenKindOf::Minus => TokenKindOf::Minus,
            TokenKindOf::Asterisk => TokenKindOf::Asterisk,
            TokenKindOf::Slash => TokenKindOf::Slash,
            TokenKindOf::Variadic => TokenKindOf::Variadic,
        }
    }
}

impl TokenKindOf<Vec<u8>> {
    /// A copy of the token kind.
    pub fn copy(&self) -> (r: TokenKind)
        ensures
            r@ == self@,
    {
        match self {
            TokenKindOf::Ident(s) => TokenKindOf::Ident(copy_bytes(s)),
            TokenKindOf::Integer(n) => TokenKindOf::Integer(*n),
            TokenKindOf::Str(s) => TokenKindOf::Str(copy_bytes(s)),
            TokenKindOf::Let => TokenKindOf::Let,
            TokenKindOf::Return => TokenKindOf::Return,
            TokenKindOf::If => TokenKindOf::If,
            TokenKindOf::While => TokenKindOf::While,
            TokenKindOf::Fn => TokenKindOf::Fn,
            TokenKindOf::Semi => TokenKindOf::Semi,
            TokenKindOf::Colon => TokenKindOf::Colon,
            TokenKindOf::Comma => TokenKindOf::Comma,
            TokenKindOf::OpenCurly => TokenKindOf::OpenCurly,
            TokenKindOf::CloseCurly => TokenKindOf::CloseCurly,
            TokenKindOf::OpenParen => TokenKindOf::OpenParen,
            TokenKindOf::CloseParen => TokenKindOf::CloseParen,
            TokenKindOf::Arrow => TokenKindOf::Arrow,
            TokenKindOf::AddAssign => TokenKindOf::AddAssign,
            TokenKindOf::SubAssign => TokenKindOf::SubAssign,
            TokenKindOf::MulAssign => TokenKindOf::MulAssign,
            TokenKindOf::DivAssign => TokenKindOf::DivAssign,
            TokenKindOf::ModAssign => TokenKindOf::ModAssign,
            TokenKindOf::BitAndAssign => TokenKindOf::BitAndAssign,
            TokenKindOf::BitOrAssign => TokenKindOf::BitOrAssign,
            TokenKindOf::XorAssign => TokenKindOf::XorAssign,
            TokenKindOf::ShlAssign => TokenKindOf::ShlAssign,
            TokenKindOf::ShrAssign => TokenKindOf::ShrAssign,
            TokenKindOf::Eq => TokenKindOf::Eq,
            TokenKindOf::Ne => TokenKindOf::Ne,
            TokenKindOf::Shr => TokenKindOf::Shr,
            TokenKindOf::Ge => TokenKindOf::Ge,
            TokenKindOf::Gt => TokenKindOf::Gt,
            TokenKindOf::Shl => TokenKindOf::Shl,
            TokenKindOf::Le => TokenKindOf::Le,
            TokenKindOf::Lt => TokenKindOf::Lt,
            TokenKindOf::And => TokenKindOf::And,
            TokenKindOf::BitAnd => TokenKindOf::BitAnd,
            TokenKindOf::Or => TokenKindOf::Or,
            TokenKindOf::BitOr => TokenKindOf::BitOr,
            TokenKindOf::Xor => TokenKindOf::Xor,
            TokenKindOf::Not => TokenKindOf::Not,
            TokenKindOf::Mod => TokenKindOf::Mod,
            TokenKindOf::Equals => TokenKindOf::Equals,
            TokenKindOf::Plus => TokenKindOf::Plus,
            TokenKindOf::Minus => TokenKindOf::Minus,
            TokenKindOf::Asterisk => TokenKindOf::Asterisk,
            TokenKindOf::Slash => TokenKindOf::Slash,
            TokenKindOf::Variadic => TokenKindOf::Variadic,
        }
    }

    /// Whether two token kinds are equal, comparing text by content.
    pub fn same(&self, other: &TokenKind) -> (r: bool)
        ensures
            r == (self@ == other@),
    {
        match (self, other) {
            (TokenKindOf::Ident(a), TokenKindOf::Ident(b)) => bytes_eq(a, b),
            (TokenKindOf::Integer(a), TokenKindOf::Integer(b)) => *a == *b,
            (TokenKindOf::Str(a), TokenKindOf::Str(b)) => bytes_eq(a, b),
            (TokenKindOf::Let, TokenKindOf::Let) => true,
            (TokenKindOf::Return, TokenKindOf::Return) => true,
            (TokenKindOf::If, TokenKindOf::If) => true,
            (TokenKindOf::While, TokenKindOf::While) => true,
            (TokenKindOf::Fn, TokenKindOf::Fn) => true,
            (TokenKindOf::Semi, TokenKindOf::Semi) => true,
            (TokenKindOf::Colon, TokenKindOf::Colon) => true,
            (TokenKindOf::Comma, TokenKindOf::Comma) => true,
            (TokenKindOf::OpenCurly, TokenKindOf::OpenCurly) => true,
            (TokenKindOf::CloseCurly, TokenKindOf::CloseCurly) => true,
            (TokenKindOf::OpenParen, TokenKindOf::OpenParen) => true,
            (TokenKindOf::CloseParen, TokenKindOf::CloseParen) => true,
            (TokenKindOf::Arrow, TokenKindOf::Arrow) => true,
            (TokenKindOf::AddAssign, TokenKindOf::AddAssign) => true,
            (TokenKindOf::SubAssign, TokenKindOf::SubAssign) => true,
            (TokenKindOf::MulAssign, TokenKindOf::MulAssign) => true,
            (TokenKindOf::DivAssign, TokenKindOf::DivAssign) => true,
            (TokenKindOf::ModAssign, TokenKindOf::ModAssign) => true,
            (TokenKindOf::BitAndAssign, TokenKindOf::BitAndAssign) => true,
            (TokenKindOf::BitOrAssign, TokenKindOf::BitOrAssign) => true,
            (TokenKindOf::XorAssign, TokenKindOf::XorAssign) => true,
            (TokenKindOf::ShlAssign, TokenKindOf::ShlAssign) => true,
            (TokenKindOf::ShrAssign, TokenKindOf::ShrAssign) => true,
            (TokenKindOf::Eq, TokenKindOf::Eq) => true,
            (TokenKindOf::Ne, TokenKindOf::Ne) => true,
            (TokenKindOf::Shr, TokenKindOf::Shr) => true,
            (TokenKindOf::Ge, TokenKindOf::Ge) => true,
            (TokenKindOf::Gt, TokenKindOf::Gt) => true,
            (TokenKindOf::Shl, TokenKindOf::Shl) => true,
            (TokenKindOf::Le, TokenKindOf::Le) => true,
            (TokenKindOf::Lt, TokenKindOf::Lt) => true,
            (TokenKindOf::And, TokenKindOf::And) => true,
            (TokenKindOf::BitAnd, TokenKindOf::BitAnd) => true,
            (TokenKindOf::Or, TokenKindOf::Or) => true,
            (TokenKindOf::BitOr, TokenKindOf::BitOr) => true,
            (TokenKindOf::Xor, TokenKindOf::Xor) => true,
            (TokenKindOf::Not, TokenKindOf::Not) => true,
            (TokenKindOf::Mod, TokenKindOf::Mod) => true,
            (TokenKindOf::Equals, TokenKindOf::Equals) => true,
            (TokenKindOf::Plus, TokenKindOf::Plus) => true,
            (TokenKindOf::Minus, TokenKindOf::Minus) => true,
            (TokenKindOf::Asterisk, TokenKindOf::Asterisk) => true,
            (TokenKindOf::Slash, TokenKindOf::Slash) => true,
            (TokenKindOf::Variadic, TokenKindOf::Variadic) => true,
            _ => false,
        }
    }
}

/// The number of keywords and delimiters, tried in order.
pub const TABLE_LEN: usize = 33;

/// Entry `i` of the keyword and delimiter table: its kind, its text,
/// and whether it is a keyword, which must be followed by a space.
pub open spec fn table_entry(i: int) -> (TokenKindV, &'static str, bool) {
    if i == 0 {
        (TokenKindOf::Let, "let", true)
    } else if i == 1 {
        (TokenKindOf::Return, "return", true)
    } else if i == 2 {
        (TokenKindOf::If, "if", true)
    } else if i == 3 {
        (TokenKindOf::While, "while", true)
    } else if i == 4 {
        (TokenKindOf::Fn, "fn", true)
    } else if i == 5 {
        (TokenKindOf::Semi, ";", false)
    } else if i == 6 {
        (TokenKindOf::Comma, ",", false)
    } else if i == 7 {
        (TokenKindOf::OpenCurly, "{", false)
    } else if i == 8 {
        (TokenKindOf::CloseCurly, "}", false)
    } else if i == 9 {
        (TokenKindOf::OpenParen, "(", false)
    } else if i == 10 {
        (TokenKindOf::CloseParen, ")", false)
    } else if i == 11 {
        (TokenKindOf::Arrow, "->", false)
    } else if i == 12 {
        (TokenKindOf::Eq, "==", false)
    } else if i == 13 {
        (TokenKindOf::Ne, "!=", false)
    } else if i == 14 {
        (TokenKindOf::Shr, ">>", false)
    } else if i == 15 {
        (TokenKindOf::Ge, ">=", false)
    } else if i == 16 {
        (TokenKindOf::Gt, ">", false)
    } else if i == 17 {
        (TokenKindOf::Shl, "<<", false)
    } else if i == 18 {
        (TokenKindOf::Le, "<=", false)
    } else if i == 19 {
        (TokenKindOf::Lt, "<", false)
    } else if i == 20 {
        (TokenKindOf::And, "&&", false)
    } else if i == 21 {
        (TokenKindOf::BitAnd, "&", false)
    } else if i == 22 {
        (TokenKindOf::Or, "||", false)
    } else if i == 23 {
        (TokenKindOf::BitOr, "|", false)
    } else if i == 24 {
        (TokenKindOf::Xor, "^", false)
    } else if i == 25 {
        (TokenKindOf::Not, "!", false)
    } else if i == 26 {
        (TokenKindOf::Mod, "%", false)
    } else if i == 27 {
        (TokenKindOf::Equals, "=", false)
    } else if i == 28 {
        (TokenKindOf::Plus, "+", false)
    } else if i == 29 {
        (TokenKindOf::Minus, "-", false)
    } else if i == 30 {
        (TokenKindOf::Asterisk, "*", false)
    } else if i == 31 {
        (TokenKindOf::Slash, "/", false)
    } else {
        (TokenKindOf::Variadic, "...", false)
    }
}

/// Every keyword and delimiter is lexed from its own text: the text that
/// an entry of the table matches is the text of the kind it gives, so
/// `>=` is read as `Ge` and `<=` as `Le`.
pub proof fn law_table_texts(e: int)
    requires
        0 <= e < TABLE_LEN,
    ensures
        table_entry(e).1 == spec_symbol(table_entry(e).0),
{
}

/// Entry `i` of the keyword and delimiter table.
pub fn table_entry_exec(i: usize) -> (r: (TokenKind, &'static str, bool))
    requires
        i < TABLE_LEN,
    ensures
        r.0@ == table_entry(i as int).0,
        r.1 == table_entry(i as int).1,
        r.2 == table_entry(i as int).2,
{
    if i == 0 {
        (TokenKindOf::Let, "let", true)
    } else if i == 1 {
        (TokenKindOf::Return, "return", true)
    } else if i == 2 {
        (TokenKindOf::If, "if", true)
    } else if i == 3 {
        (TokenKindOf::While, "while", true)
    } else if i == 4 {
        (TokenKindOf::Fn, "fn", true)
    } else if i == 5 {
        (TokenKindOf::Semi, ";", false)
    } else if i == 6 {
        (TokenKindOf::Comma, ",", false)
    } else if i == 7 {
        (TokenKindOf::OpenCurly, "{", false)
    } else if i == 8 {
        (TokenKindOf::CloseCurly, "}", false)
    } else if i == 9 {
        (TokenKindOf::OpenParen, "(", false)
    } else if i == 10 {
        (TokenKindOf::CloseParen, ")", false)
    } else if i == 11 {
        (TokenKindOf::Arrow, "->", false)
    } else if i == 12 {
        (TokenKindOf::Eq, "==", false)
    } else if i == 13 {
        (TokenKindOf::Ne, "!=", false)
    } else if i == 14 {
        (TokenKindOf::Shr, ">>", false)
    } else if i == 15 {
        (TokenKindOf::Ge, ">=", false)
    } else if i == 16 {
        (TokenKindOf::Gt, ">", false)
    } else if i == 17 {
        (TokenKindOf::Shl, "<<", false)
    } else if i == 18 {
        (TokenKindOf::Le, "<=", false)
    } else if i == 19 {
        (TokenKindOf::Lt, "<", false)
    } else if i == 20 {
        (TokenKindOf::And, "&&", false)
    } else if i == 21 {
        (TokenKindOf::BitAnd, "&", false)
    } else if i == 22 {
        (TokenKindOf::Or, "||", false)
    } else if i == 23 {
        (TokenKindOf::BitOr, "|", false)
    } else if i == 24 {
        (TokenKindOf::Xor, "^", false)
    } else if i == 25 {
        (TokenKindOf::Not, "!", false)
    } else if i == 26 {
        (TokenKindOf::Mod, "%", false)
    } else if i == 27 {
        (TokenKindOf::Equals, "=", false)
    } else if i == 28 {
        (TokenKindOf::Plus, "+", false)
    } else if i == 29 {
        (TokenKindOf::Minus, "-", false)
    } else if i == 30 {
        (TokenKindOf::Asterisk, "*", false)
    } else if i == 31 {
        (TokenKindOf::Slash, "/", false)
    } else {
        (TokenKindOf::Variadic, "...", false)
    }
}

/// A token: its kind and where it stands in the source.
#[derive(Debug, PartialEq, Eq)]
pub struct TokenOf<S> {
    pub span: Span,
    pub kind: TokenKindOf<S>,
}

pub type Token = TokenOf<Vec<u8>>;

pub type TokenV = TokenOf<Seq<u8>>;

impl View for TokenOf<Vec<u8>> {
    type V = TokenOf<Seq<u8>>;

    open spec fn view(&self) -> TokenOf<Seq<u8>> {
        TokenOf { span: self.span, kind: self.kind@ }
    }
}

impl TokenOf<Vec<u8>> {
    /// A copy of the token.
    pub fn copy(&self) -> (r: Token)
        ensures
            r@ == self@,
    {
        TokenOf { span: self.span, kind: self.kind.copy() }
    }
}

/// The values of a sequence of tokens.
pub open spec fn tokens_view(ts: Seq<Token>) -> Seq<TokenV> {
    ts.map_values(|t: Token| t@)
}

/// What went wrong while lexing.
#[derive(Debug, PartialEq, Eq)]
pub enum ErrorKindOf<S> {
    StrDelim,
    Ident(S),
    Integer(S),
}

/// A lexing error and the byte offset where it was found.
#[derive(Debug, PartialEq, Eq)]
pub struct ErrorOf<S> {
    pub kind: ErrorKindOf<S>,
    pub index: usize,
}

pub type ErrorKind = ErrorKindOf<Vec<u8>>;

pub type Error = ErrorOf<Vec<u8>>;

pub type ErrorV = ErrorOf<Seq<u8>>;

impl View for ErrorOf<Vec<u8>> {
    type V = ErrorOf<Seq<u8>>;

    open spec fn view(&self) -> ErrorOf<Seq<u8>> {
        ErrorOf {
            kind: match self.kind {
                ErrorKindOf::StrDelim => ErrorKindOf::StrDelim,
                ErrorKindOf::Ident(s) => ErrorKindOf::Ident(s@),
                ErrorKindOf::Integer(s) => ErrorKindOf::Integer(s@),
            },
            index: self.index,
        }
    }
}

pub open spec fn is_ascii_whitespace(b: u8) -> bool {
    b == SPACE || b == TAB || b == NEWLINE || b == FORM_FEED || b == CARRIAGE_RETURN
}

/// `char::is_whitespace` on an ASCII character.
pub open spec fn is_whitespace(b: u8) -> bool {
    is_ascii_whitespace(b) || b == VERTICAL_TAB
}

/// Whether `b` is the first byte of some delimiter.
pub open spec fn is_delimiter_start(b: u8) -> bool {
    b == 59 || b == 44 || b == 123 || b == 125 || b == 40 || b == 41 || b == 45
        || b == 61 || b == 33 || b == 62 || b == 60 || b == 38 || b == 124 || b == 94 || b == 37
        || b == 43 || b == 42 || b == 47 || b == 46
}

pub open spec fn is_digit(b: u8) -> bool {
    48 <= b <= 57
}

pub open spec fn is_alpha(b: u8) -> bool {
    (65 <= b <= 90) || (97 <= b <= 122)
}

pub open spec fn all_ascii(w: Seq<u8>) -> bool {
    forall|k: int| 0 <= k < w.len() ==> w[k] < 128
}

pub open spec fn all_digits(w: Seq<u8>) -> bool {
    forall|k: int| 0 <= k < w.len() ==> is_digit(#[trigger] w[k])
}

/// The value of a string of decimal digits.
pub open spec fn digits_value(w: Seq<u8>) -> nat
    decreases w.len(),
{
    if w.len() == 0 {
        0
    } else {
        digits_value(w.drop_last()) * 10 + (w.last() - 48) as nat
    }
}

/// The first position at or after `i` that is not ASCII whitespace.
pub open spec fn skip_whitespace(s: Seq<u8>, i: int) -> int
    decreases s.len() - i,
{
    if 0 <= i < s.len() && is_ascii_whitespace(s[i]) {
        skip_whitespace(s, i + 1)
    } else {
        i
    }
}

/// The first position at or after `i` holding `b`.
pub open spec fn find_byte(s: Seq<u8>, i: int, b: u8) -> Option<int>
    decreases s.len() - i,
{
    if i < 0 || i >= s.len() {
        None
    } else if s[i] == b {
        Some(i)
    } else {
        find_byte(s, i + 1, b)
    }
}

/// Where a comment that starts at `i` ends: after its newline, or at the
/// end of the input.
pub open spec fn comment_end(s: Seq<u8>, i: int) -> int {
    match find_byte(s, i, NEWLINE) {
        Some(k) => k + 1,
        None => s.len() as int,
    }
}

/// Whether table entry `e` matches the input at `j`.
pub open spec fn entry_matches(s: Seq<u8>, j: int, e: int) -> bool {
    let text = bytes(table_entry(e).1);
    &&& prefix_at(s, j, text)
    &&& table_entry(e).2 ==> (j + text.len() < s.len() && s[j + text.len()] == SPACE)
}

/// How many bytes a match of table entry `e` takes, the space after a
/// keyword included.
pub open spec fn entry_len(e: int) -> int {
    bytes(table_entry(e).1).len() + if table_entry(e).2 {
        1int
    } else {
        0int
    }
}

/// The first table entry at or after `e` that matches at `j`.
pub open spec fn first_match(s: Seq<u8>, j: int, e: int) -> Option<int>
    decreases TABLE_LEN - e,
{
    if e < 0 || e >= TABLE_LEN {
        None
    } else if entry_matches(s, j, e) {
        Some(e)
    } else {
        first_match(s, j, e + 1)
    }
}

/// One step of the lexer.
pub enum Step {
    /// Only whitespace is left.
    Done,
    /// A comment was skipped; lexing goes on at the position.
    Skip(int),
    /// A token was read; lexing goes on at the position.
    Emit(TokenV, int),
    /// The input is rejected.
    Fail(ErrorV),
    /// The lexer panics here: it cuts the input inside a character, or
    /// finds a word of no characters.
    Panics,
}

/// Whether the input may be cut at `p`: at its end, or before a byte that
/// starts a character.
pub open spec fn cut_at(s: Seq<u8>, p: int) -> bool {
    p == s.len() || (0 <= p < s.len() && !vstd::utf8::is_continuation_byte(s[p]))
}

/// The number of characters of the UTF-8 text `s`.
pub open spec fn count_chars(s: Seq<u8>) -> nat
    decreases s.len(),
{
    if s.len() == 0 {
        0
    } else {
        count_chars(s.drop_last()) + if vstd::utf8::is_continuation_byte(s.last()) {
            0nat
        } else {
            1nat
        }
    }
}

/// The string literal whose opening quote is at `j`. Its text ends at the
/// closing quote; the lexer measures it in characters but cuts the input
/// by that many bytes: the literal holds that many bytes after the quote,
/// and lexing goes on that many bytes and two after `j`. A cut inside a
/// character panics.
pub open spec fn string_step(s: Seq<u8>, j: int) -> Step {
    match find_byte(s, j + 1, QUOTE) {
        None => Step::Fail(ErrorOf { kind: ErrorKindOf::StrDelim, index: j as usize }),
        Some(k) => {
            let end = count_chars(s.subrange(j + 1, k)) as int;
            if cut_at(s, j + 1 + end) && cut_at(s, j + end + 2) {
                Step::Emit(
                    TokenOf {
                        span: Span { start: j as usize, end: end as usize },
                        kind: TokenKindOf::Str(s.subrange(j + 1, j + 1 + end)),
                    },
                    j + end + 2,
                )
            } else {
                Step::Panics
            }
        },
    }
}

/// The width in bytes of the character that starts at `p`.
pub open spec fn width_at(s: Seq<u8>, p: int) -> int {
    vstd::utf8::length_of_first_codepoint(s.subrange(p, s.len() as int))
}

/// The code of the character that starts at `p`.
pub open spec fn code_at(s: Seq<u8>, p: int) -> u32 {
    vstd::utf8::decode_first_codepoint(s.subrange(p, s.len() as int))
}

/// A character is one to four bytes wide.
pub proof fn lemma_width_range(s: Seq<u8>, p: int)
    ensures
        1 <= width_at(s, p) <= 4,
{
}

/// Whether a character starts at `p`: its bytes are there and give a
/// Unicode scalar value (as they always do in text).
pub open spec fn char_starts(s: Seq<u8>, p: int) -> bool {
    0 <= p && p + width_at(s, p) <= s.len() && vstd::utf8::is_scalar(code_at(s, p))
}

/// Whether a character ends a word: whitespace, or the first character of
/// a delimiter.
pub open spec fn ends_word(c: u32) -> bool {
    if c < 128 {
        is_whitespace(c as u8) || is_delimiter_start(c as u8)
    } else {
        unicode_whitespace(c as char)
    }
}

/// Whether a character is numeric.
pub open spec fn numeric_code(c: u32) -> bool {
    if c < 128 {
        is_digit(c as u8)
    } else {
        unicode_numeric(c as char)
    }
}

/// Whether a character is alphabetic.
pub open spec fn alphabetic_code(c: u32) -> bool {
    if c < 128 {
        is_alpha(c as u8)
    } else {
        unicode_alphabetic(c as char)
    }
}

/// The number of characters of the word that starts at `p`, or `None`
/// where its bytes do not decode to characters.
pub open spec fn word_chars(s: Seq<u8>, p: int) -> Option<nat>
    decreases s.len() - p,
{
    if p < 0 || p >= s.len() {
        Some(0)
    } else if !char_starts(s, p) {
        None
    } else if ends_word(code_at(s, p)) {
        Some(0)
    } else {
        proof {
            lemma_width_range(s, p);
        }
        match word_chars(s, p + width_at(s, p)) {
            Some(n) => Some(n + 1),
            None => None,
        }
    }
}

/// Whether every character from `p` up to `e` is numeric; `None` where
/// the bytes do not decode to characters.
pub open spec fn numeric_from(s: Seq<u8>, p: int, e: int) -> Option<bool>
    decreases s.len() - p,
{
    if p >= e {
        Some(true)
    } else if !char_starts(s, p) {
        None
    } else {
        proof {
            lemma_width_range(s, p);
        }
        match numeric_from(s, p + width_at(s, p), e) {
            Some(rest) => Some(numeric_code(code_at(s, p)) && rest),
            None => None,
        }
    }
}

/// The word that starts at `j`: an integer or an identifier. The lexer
/// counts its characters but cuts the input by that many bytes, so the
/// word is that many bytes; a word of no characters, or a cut inside a
/// character, panics.
pub open spec fn word_step(s: Seq<u8>, j: int) -> Step {
    match word_chars(s, j) {
        None => Step::Panics,
        Some(n) => {
            let e = j + n;
            let w = s.subrange(j, e);
            if n == 0 || !cut_at(s, e) {
                Step::Panics
            } else {
                match numeric_from(s, j, e) {
                    None => Step::Panics,
                    Some(true) => if all_digits(w) && digits_value(w) <= u64::MAX {
                        Step::Emit(
                            TokenOf {
                                span: Span { start: j as usize, end: e as usize },
                                kind: TokenKindOf::Integer(digits_value(w) as u64),
                            },
                            e,
                        )
                    } else {
                        Step::Fail(ErrorOf { kind: ErrorKindOf::Integer(w), index: j as usize })
                    },
                    Some(false) => if !char_starts(s, j) {
                        Step::Panics
                    } else if alphabetic_code(code_at(s, j)) || s[j] == UNDERSCORE {
                        Step::Emit(
                            TokenOf {
                                span: Span { start: j as usize, end: e as usize },
                                kind: TokenKindOf::Ident(w),
                            },
                            e,
                        )
                    } else {
                        Step::Fail(ErrorOf { kind: ErrorKindOf::Ident(w), index: j as usize })
                    },
                }
            }
        },
    }
}

/// What the lexer does from position `i`.
pub open spec fn step(s: Seq<u8>, i: int) -> Step {
    let j = skip_whitespace(s, i);
    if j >= s.len() {
        Step::Done
    } else if prefix_at(s, j, bytes("//")) {
        Step::Skip(comment_end(s, j))
    } else if s[j] == QUOTE {
        string_step(s, j)
    } else {
        match first_match(s, j, 0) {
            Some(e) => Step::Emit(
                TokenOf {
                    span: Span { start: j as usize, end: (j + entry_len(e)) as usize },
                    kind: table_entry(e).0,
                },
                j + entry_len(e),
            ),
            None => word_step(s, j),
        }
    }
}

/// The outcome of lexing a whole input.
pub enum Lexed {
    Tokens(Seq<TokenV>),
    Failed(ErrorV),
    Panics,
}

/// Lexing from position `i`, with the tokens `acc` already read.
pub open spec fn lex(s: Seq<u8>, i: int, acc: Seq<TokenV>) -> Lexed
    decreases s.len() - i,
{
    if i < 0 || i > s.len() {
        Lexed::Panics
    } else {
        match step(s, i) {
            Step::Done => Lexed::Tokens(acc),
            Step::Skip(k) => if i < k <= s.len() {
                lex(s, k, acc)
            } else {
                Lexed::Panics
            },
            Step::Emit(t, k) => if i < k <= s.len() {
                lex(s, k, acc.push(t))
            } else {
                Lexed::Panics
            },
            Step::Fail(e) => Lexed::Failed(e),
            Step::Panics => Lexed::Panics,
        }
    }
}

/// The outcome of lexing `s`.
pub open spec fn spec_tokenize(s: Seq<u8>) -> Lexed {
    lex(s, 0, seq![])
}

/// Every entry of the table has some text.
proof fn lemma_entry_nonempty(e: int)
    requires
        0 <= e < TABLE_LEN,
    ensures
        entry_len(e) > 0,
{
    if e == 0 {
        reveal_strlit("let");
        lemma_ascii_bytes("let");
    } else if e == 1 {
        reveal_strlit("return");
        lemma_ascii_bytes("return");
    } else if e == 2 {
        reveal_strlit("if");
        lemma_ascii_bytes("if");
    } else if e == 3 {
        reveal_strlit("while");
        lemma_ascii_bytes("while");
    } else if e == 4 {
        reveal_strlit("fn");
        lemma_ascii_bytes("fn");
    } else if e == 5 {
        reveal_strlit(";");
        lemma_ascii_bytes(";");
    } else if e == 6 {
        reveal_strlit(",");
        lemma_ascii_bytes(",");
    } else if e == 7 {
        reveal_strlit("{");
        lemma_ascii_bytes("{");
    } else if e == 8 {
        reveal_strlit("}");
        lemma_ascii_bytes("}");
    } else if e == 9 {
        reveal_strlit("(");
        lemma_ascii_bytes("(");
    } else if e == 10 {
        reveal_strlit(")");
        lemma_ascii_bytes(")");
    } else if e == 11 {
        reveal_strlit("->");
        lemma_ascii_bytes("->");
    } else if e == 12 {
        reveal_strlit("==");
        lemma_ascii_bytes("==");
    } else if e == 13 {
        reveal_strlit("!=");
        lemma_ascii_bytes("!=");
    } else if e == 14 {
        reveal_strlit(">>");
        lemma_ascii_bytes(">>");
    } else if e == 15 {
        reveal_strlit(">=");
        lemma_ascii_bytes(">=");
    } else if e == 16 {
        reveal_strlit(">");
        lemma_ascii_bytes(">");
    } else if e == 17 {
        reveal_strlit("<<");
        lemma_ascii_bytes("<<");
    } else if e == 18 {
        reveal_strlit("<=");
        lemma_ascii_bytes("<=");
    } else if e == 19 {
        reveal_strlit("<");
        lemma_ascii_bytes("<");
    } else if e == 20 {
        reveal_strlit("&&");
        lemma_ascii_bytes("&&");
    } else if e == 21 {
        reveal_strlit("&");
        lemma_ascii_bytes("&");
    } else if e == 22 {
        reveal_strlit("||");
        lemma_ascii_bytes("||");
    } else if e == 23 {
        reveal_strlit("|");
        lemma_ascii_bytes("|");
    } else if e == 24 {
        reveal_strlit("^");
        lemma_ascii_bytes("^");
    } else if e == 25 {
        reveal_strlit("!");
        lemma_ascii_bytes("!");
    } else if e == 26 {
        reveal_strlit("%");
        lemma_ascii_bytes("%");
    } else if e == 27 {
        reveal_strlit("=");
        lemma_ascii_bytes("=");
    } else if e == 28 {
        reveal_strlit("+");
        lemma_ascii_bytes("+");
    } else if e == 29 {
        reveal_strlit("-");
        lemma_ascii_bytes("-");
    } else if e == 30 {
        reveal_strlit("*");
        lemma_ascii_bytes("*");
    } else if e == 31 {
        reveal_strlit("/");
        lemma_ascii_bytes("/");
    } else {
        reveal_strlit("...");
        lemma_ascii_bytes("...");
    }
}

proof fn lemma_skip_ge(s: Seq<u8>, i: int)
    ensures
        skip_whitespace(s, i) >= i,
    decreases s.len() - i,
{
    if 0 <= i < s.len() && is_ascii_whitespace(s[i]) {
        lemma_skip_ge(s, i + 1);
    }
}

proof fn lemma_find_byte_ge(s: Seq<u8>, i: int, b: u8)
    ensures
        find_byte(s, i, b) matches Some(k) ==> i <= k < s.len(),
    decreases s.len() - i,
{
    if 0 <= i < s.len() && s[i] != b {
        lemma_find_byte_ge(s, i + 1, b);
    }
}

proof fn lemma_first_match_range(s: Seq<u8>, j: int, e: int)
    ensures
        first_match(s, j, e) matches Some(x) ==> 0 <= x < TABLE_LEN,
    decreases TABLE_LEN - e,
{
    if 0 <= e < TABLE_LEN && !entry_matches(s, j, e) {
        lemma_first_match_range(s, j, e + 1);
    }
}

/// Whether the tokens' spans come in the order of the text: starts strictly
/// rise, and a token other than a string literal covers a non-empty stretch
/// that ends by the next token's start and by `end`. (A string literal's
/// span records its start and the length of its text.)
pub open spec fn starts_in_order(ts: Seq<TokenV>, end: int) -> bool {
    &&& forall|a: int| 0 <= a < ts.len() ==> #[trigger] ts[a].span.start < end
    &&& forall|a: int, b: int| 0 <= a < b < ts.len() ==> #[trigger] ts[a].span.start < #[trigger] ts[b].span.start
    &&& forall|a: int|
        0 <= a < ts.len() && !(ts[a].kind is Str) ==> #[trigger] ts[a].span.start < ts[a].span.end <= end
    &&& forall|a: int, b: int|
        0 <= a < b < ts.len() && !(ts[a].kind is Str) ==> #[trigger] ts[a].span.end <= #[trigger] ts[b].span.start
}

proof fn lemma_lex_starts(s: Seq<u8>, i: int, acc: Seq<TokenV>)
    requires
        0 <= i,
        s.len() <= usize::MAX,
        starts_in_order(acc, i),
    ensures
        lex(s, i, acc) matches Lexed::Tokens(ts) ==> starts_in_order(ts, s.len() as int),
    decreases s.len() - i,
{
    if 0 <= i <= s.len() {
        let j = skip_whitespace(s, i);
        lemma_skip_ge(s, i);
        match step(s, i) {
            Step::Skip(k) => {
                if i < k <= s.len() {
                    lemma_lex_starts(s, k, acc);
                }
            },
            Step::Emit(t, k) => {
                if i < k <= s.len() {
                    assert(j < s.len());
                    if s[j] == QUOTE {
                        lemma_find_byte_ge(s, j + 1, QUOTE);
                    } else if prefix_at(s, j, bytes("//")) {
                    } else {
                        lemma_first_match_range(s, j, 0);
                        match first_match(s, j, 0) {
                            Some(e) => {
                                lemma_entry_nonempty(e);
                                assert(entry_len(e) > 0);
                                assert(t.span.start == j);
                                assert(j + entry_len(e) <= s.len());
                                assert(t.span.end == j + entry_len(e));
                                assert(k == j + entry_len(e));
                                assert(t.span.start < t.span.end <= k);
                            },
                            None => {
                                assert(step(s, i) == word_step(s, j));
                                let n = word_chars(s, j).unwrap();
                                assert(k == j + n);
                                assert(t.span.end == j + n);
                                assert(t.span.start < t.span.end <= k);
                            },
                        }
                    }
                    assert(t.span.start == j);
                    assert(!(t.kind is Str) ==> t.span.start < t.span.end <= k);
                    let acc2 = acc.push(t);
                    assert forall|a: int, b: int| 0 <= a < b < acc2.len() implies #[trigger] acc2[a].span.start
                        < #[trigger] acc2[b].span.start by {
                        if b == acc.len() {
                            assert(acc[a].span.start < i);
                        }
                    }
                    assert forall|a: int, b: int| 0 <= a < b < acc2.len() && !(acc2[a].kind is Str) implies
                        #[trigger] acc2[a].span.end <= #[trigger] acc2[b].span.start by {
                        if b == acc.len() {
                            assert(acc[a].span.start < i);
                            assert(acc[a].span.end <= i);
                        }
                    }
                    assert(starts_in_order(acc2, k));
                    lemma_lex_starts(s, k, acc2);
                }
            },
            _ => {},
        }
    }
}

/// The tokens of an input come in the order of its text: each starts after
/// the one before, and every token but a string literal covers a non-empty
/// stretch that ends where the next may start.
pub proof fn law_tokens_in_text_order(s: Seq<u8>)
    requires
        s.len() <= usize::MAX,
    ensures
        spec_tokenize(s) matches Lexed::Tokens(ts) ==> starts_in_order(ts, s.len() as int),
{
    lemma_lex_starts(s, 0, seq![]);
}

/// Whether a string literal starts at `i`.
pub open spec fn starts_string(s: Seq<u8>, i: int) -> bool {
    0 <= i < s.len() && s[i] == QUOTE
}

fn ascii_whitespace(b: u8) -> (r: bool)
    ensures
        r == is_ascii_whitespace(b),
{
    b == SPACE || b == TAB || b == NEWLINE || b == FORM_FEED || b == CARRIAGE_RETURN
}

fn delimiter_start(b: u8) -> (r: bool)
    ensures
        r == is_delimiter_start(b),
{
    b == 59 || b == 44 || b == 123 || b == 125 || b == 40 || b == 41 || b == 45 || b
        == 61 || b == 33 || b == 62 || b == 60 || b == 38 || b == 124 || b == 94 || b == 37 || b
        == 43 || b == 42 || b == 47 || b == 46
}

proof fn lemma_digits_value_prefix(w: Seq<u8>, k: int)
    requires
        0 <= k <= w.len(),
    ensures
        digits_value(w.take(k)) <= digits_value(w),
    decreases w.len(),
{
    if k < w.len() {
        lemma_digits_value_prefix(w.drop_last(), k);
        assert(w.drop_last().take(k) =~= w.take(k));
    } else {
        assert(w.take(k) =~= w);
    }
}

/// The value of a string of decimal digits, or `None` where it exceeds
/// `u64::MAX`.
pub fn parse_digits(w: &Vec<u8>) -> (r: Option<u64>)
    requires
        all_digits(w@),
    ensures
        r matches Some(v) ==> digits_value(w@) == v,
        r is None ==> digits_value(w@) > u64::MAX,
{
    let mut acc: u64 = 0;
    let mut k: usize = 0;
    assert(w@.take(0) =~= Seq::<u8>::empty());
    while k < w.len()
        invariant
            0 <= k <= w@.len(),
            all_digits(w@),
            acc == digits_value(w@.take(k as int)),
        decreases w@.len() - k,
    {
        let d = w[k] - 48;
        assert(w@.take(k + 1).drop_last() =~= w@.take(k as int));
        match acc.checked_mul(10) {
            Some(m) => match m.checked_add(d as u64) {
                Some(v) => {
                    acc = v;
                },
                None => {
                    proof {
                        lemma_digits_value_prefix(w@, k + 1);
                    }
                    return None;
                },
            },
            None => {
                proof {
                    lemma_digits_value_prefix(w@, k + 1);
                }
                return None;
            },
        }
        k += 1;
    }
    assert(w@.take(w@.len() as int) =~= w@);
    Some(acc)
}

/// A cursor over the bytes of the input.
pub struct Tokenizer {
    pub input: Vec<u8>,
    pub index: usize,
}

impl Tokenizer {
    pub open spec fn wf(&self) -> bool {
        self.index <= self.input@.len()
    }

    /// A cursor at the start of `input`.
    pub fn new(input: &str) -> (r: Tokenizer)
        ensures
            r.input@ == bytes(input),
            r.index == 0,
            r.wf(),
    {
        let b = input.as_bytes();
        let v = copy_range(b, 0, b.len());
        assert(b@.subrange(0, b@.len() as int) =~= b@);
        Tokenizer { input: v, index: 0 }
    }

    /// Skips ASCII whitespace.
    pub fn eat_whitespace(&mut self)
        requires
            old(self).wf(),
        ensures
            final(self).wf(),
            final(self).input@ == old(self).input@,
            final(self).index == skip_whitespace(old(self).input@, old(self).index as int),
    {
        while self.index < self.input.len() && ascii_whitespace(self.input[self.index])
            invariant
                self.wf(),
                self.input@ == old(self).input@,
                skip_whitespace(self.input@, self.index as int) == skip_whitespace(
                    old(self).input@,
                    old(self).index as int,
                ),
            decreases self.input@.len() - self.index,
        {
            self.index += 1;
        }
    }

    /// Skips a comment, which runs up to and including the next newline.
    pub fn eat_comment(&mut self) -> (r: bool)
        requires
            old(self).wf(),
        ensures
            final(self).wf(),
            final(self).input@ == old(self).input@,
            r == prefix_at(old(self).input@, old(self).index as int, bytes("//")),
            final(self).index == if r {
                comment_end(old(self).input@, old(self).index as int)
            } else {
                old(self).index as int
            },
    {
        if starts_with_at(self.input.as_slice(), self.index, "//".as_bytes()) {
            let mut k = self.index;
            while k < self.input.len() && self.input[k] != NEWLINE
                invariant
                    self.wf(),
                    self.index <= k <= self.input@.len(),
                    find_byte(self.input@, k as int, NEWLINE) == find_byte(
                        self.input@,
                        self.index as int,
                        NEWLINE,
                    ),
                decreases self.input@.len() - k,
            {
                k += 1;
            }
            if k < self.input.len() {
                self.index = k + 1;
            } else {
                self.index = self.input.len();
            }
            true
        } else {
            false
        }
    }

    /// Reads a string literal where the input starts with a quote.
    pub fn eat_string(&mut self) -> (r: Result<Option<Token>, Error>)
        requires
            old(self).wf(),
            starts_string(old(self).input@, old(self).index as int) ==> !(string_step(
                old(self).input@,
                old(self).index as int,
            ) is Panics),
        ensures
            final(self).wf(),
            final(self).input@ == old(self).input@,
            !starts_string(old(self).input@, old(self).index as int) ==> (r matches Ok(None)
                && final(self).index == old(self).index),
            starts_string(old(self).input@, old(self).index as int) ==> match string_step(
                old(self).input@,
                old(self).index as int,
            ) {
                Step::Emit(t, k) => r matches Ok(Some(x)) && x@ == t && final(self).index == k,
                Step::Fail(e) => r matches Err(x) && x@ == e && final(self).index == old(
                    self,
                ).index,
                _ => false,
            },
    {
        let i = self.index;
        if i >= self.input.len() || self.input[i] != QUOTE {
            return Ok(None);
        }
        let mut k = i + 1;
        while k < self.input.len() && self.input[k] != QUOTE
            invariant
                self.wf(),
                i < k <= self.input@.len(),
                find_byte(self.input@, k as int, QUOTE) == find_byte(
                    self.input@,
                    i + 1,
                    QUOTE,
                ),
            decreases self.input@.len() - k,
        {
            k += 1;
        }
        if k >= self.input.len() {
            return Err(ErrorOf { kind: ErrorKindOf::StrDelim, index: i });
        }
        let end = count_chars_in(self.input.as_slice(), i + 1, k);
        let text = copy_range(self.input.as_slice(), i + 1, i + 1 + end);
        let token = TokenOf { span: Span { start: i, end }, kind: TokenKindOf::Str(text) };
        self.index = i + end + 2;
        Ok(Some(token))
    }

    /// Reads the first keyword or delimiter of the table that matches here.
    pub fn eat_symbol(&mut self) -> (r: Option<Token>)
        requires
            old(self).wf(),
        ensures
            final(self).wf(),
            final(self).input@ == old(self).input@,
            match first_match(old(self).input@, old(self).index as int, 0) {
                Some(e) => r matches Some(t) && t@ == (TokenOf {
                    span: Span {
                        start: old(self).index,
                        end: (old(self).index + entry_len(e)) as usize,
                    },
                    kind: table_entry(e).0,
                }) && final(self).index == old(self).index + entry_len(e),
                None => r is None && final(self).index == old(self).index,
            },
    {
        let i = self.index;
        let mut e: usize = 0;
        while e < TABLE_LEN
            invariant
                self.wf(),
                self.index == i,
                i == old(self).index,
                self.input@ == old(self).input@,
                self.input@.len() == self.input.len(),
                0 <= e <= TABLE_LEN,
                first_match(self.input@, i as int, 0) == first_match(self.input@, i as int, e as int),
            decreases TABLE_LEN - e,
        {
            let (kind, text, keyword) = table_entry_exec(e);
            let t = text.as_bytes();
            if starts_with_at(self.input.as_slice(), i, t) && (!keyword || (i + t.len()
                < self.input.len() && self.input[i + t.len()] == SPACE)) {
                assert(entry_matches(self.input@, i as int, e as int));
                let len = if keyword {
                    t.len() + 1
                } else {
                    t.len()
                };
                assert(len == entry_len(e as int));
                assert(first_match(self.input@, i as int, e as int) == Some(e as int));
                self.index = i + len;
                return Some(TokenOf { span: Span { start: i, end: i + len }, kind });
            }
            e += 1;
        }
        None
    }

    /// Reads an integer or an identifier.
    pub fn eat_word(&mut self) -> (r: Option<Result<Token, Error>>)
        requires
            old(self).wf(),
        ensures
            final(self).wf(),
            final(self).input@ == old(self).input@,
            match word_step(old(self).input@, old(self).index as int) {
                Step::Emit(t, k) => r matches Some(Ok(x)) && x@ == t && final(self).index == k,
                Step::Fail(e) => r matches Some(Err(x)) && x@ == e && final(self).index == old(
                    self,
                ).index,
                Step::Panics => r is None,
                _ => false,
            },
    {
        let i = self.index;
        let ghost s = self.input@;
        let b = self.input.as_slice();
        let len = b.len();
        assert(b@ == s);
        let n = match word_chars_exec(b, i) {
            None => {
                return None;
            },
            Some(n) => n,
        };
        assert(word_chars(s, i as int) == Some(n as nat));
        assert(i + n <= len);
        if n == 0 {
            return None;
        }
        let e = i + n;
        if !cut_ok(b, e) {
            return None;
        }
        let w = copy_range(b, i, e);
        match numeric_from_exec(b, i, e) {
            None => None,
            Some(true) => {
                let mut digits = true;
                let mut k: usize = 0;
                while k < w.len()
                    invariant
                        0 <= k <= w@.len(),
                        digits == (forall|m: int| 0 <= m < k ==> is_digit(#[trigger] w@[m])),
                    decreases w@.len() - k,
                {
                    if !(48 <= w[k] && w[k] <= 57) {
                        digits = false;
                    }
                    k += 1;
                }
                if !digits {
                    return Some(Err(ErrorOf { kind: ErrorKindOf::Integer(w), index: i }));
                }
                match parse_digits(&w) {
                    Some(v) => {
                        self.index = e;
                        Some(Ok(TokenOf { span: Span { start: i, end: e }, kind: TokenKindOf::Integer(v) }))
                    },
                    None => Some(Err(ErrorOf { kind: ErrorKindOf::Integer(w), index: i })),
                }
            },
            Some(false) => {
                let (c, _) = match decode_at(self.input.as_slice(), i) {
                    None => {
                        return None;
                    },
                    Some(x) => x,
                };
                if alphabetic_exec(c) || self.input[i] == UNDERSCORE {
                    self.index = e;
                    Some(Ok(TokenOf { span: Span { start: i, end: e }, kind: TokenKindOf::Ident(w) }))
                } else {
                    Some(Err(ErrorOf { kind: ErrorKindOf::Ident(w), index: i }))
                }
            },
        }
    }
}

/// What one step of the lexer did.
pub enum Stepped {
    Done,
    Skipped,
    Emitted(Token),
    Failed(Error),
    /// The lexer panics here.
    Panicked,
}

/// Whether the bytes `s[from..to]` are all ASCII.
fn ascii_range(s: &[u8], from: usize, to: usize) -> (r: bool)
    requires
        from <= to <= s@.len(),
    ensures
        r == all_ascii(s@.subrange(from as int, to as int)),
{
    let mut k = from;
    while k < to
        invariant
            from <= k <= to <= s@.len(),
            forall|m: int| from <= m < k ==> s@[m] < 128,
        decreases to - k,
    {
        if s[k] >= 128 {
            assert(s@.subrange(from as int, to as int)[k - from] >= 128);
            return false;
        }
        k += 1;
    }
    assert forall|m: int| 0 <= m < to - from implies s@.subrange(from as int, to as int)[m] < 128 by {
        assert(s@.subrange(from as int, to as int)[m] == s@[from + m]);
    }
    true
}

/// Whether `char::is_whitespace` holds of `c`.
pub uninterp spec fn unicode_whitespace(c: char) -> bool;

/// Whether `char::is_numeric` holds of `c`.
pub uninterp spec fn unicode_numeric(c: char) -> bool;

/// Whether `char::is_alphabetic` holds of `c`.
pub uninterp spec fn unicode_alphabetic(c: char) -> bool;

/// The character with code `u`, as `char::from_u32` gives it: one exactly
/// where `u` is a Unicode scalar value, with that code.
#[verifier::external_body]
fn char_from_code(u: u32) -> (r: Option<char>)
    ensures
        r is Some <==> vstd::utf8::is_scalar(u),
        r matches Some(c) ==> c as u32 == u,
{
    char::from_u32(u)
}

/// Whether `c` is whitespace, as `char::is_whitespace` says.
#[verifier::external_body]
fn char_is_whitespace(c: char) -> (r: bool)
    ensures
        r == unicode_whitespace(c),
{
    c.is_whitespace()
}

/// Whether `c` is numeric, as `char::is_numeric` says.
#[verifier::external_body]
fn char_is_numeric(c: char) -> (r: bool)
    ensures
        r == unicode_numeric(c),
{
    c.is_numeric()
}

/// Whether `c` is alphabetic, as `char::is_alphabetic` says.
#[verifier::external_body]
fn char_is_alphabetic(c: char) -> (r: bool)
    ensures
        r == unicode_alphabetic(c),
{
    c.is_alphabetic()
}

/// The character that starts at `p`: its code and width, or `None` where
/// its bytes are not there or give no Unicode scalar value.
fn decode_at(b: &[u8], p: usize) -> (r: Option<(u32, usize)>)
    requires
        p < b@.len(),
    ensures
        r is Some <==> char_starts(b@, p as int),
        r matches Some((c, w)) ==> c == code_at(b@, p as int) && w == width_at(b@, p as int),
{
    let ghost t = b@.subrange(p as int, b@.len() as int);
    assert(t[0] == b@[p as int]);
    let b0 = b[p];
    let w: usize = if b0 <= 0x7f {
        1
    } else if 0xc0 <= b0 && b0 <= 0xdf {
        2
    } else if 0xe0 <= b0 && b0 <= 0xef {
        3
    } else {
        4
    };
    assert(w == width_at(b@, p as int));
    if w > b.len() - p {
        return None;
    }
    let c: u32 = if w == 1 {
        (b0 & 0x7F) as u32
    } else if w == 2 {
        assert(t[1] == b@[p + 1]);
        (((b0 & 0x1F) as u32) << 6) | ((b[p + 1] & 0x3f) as u32)
    } else if w == 3 {
        assert(t[1] == b@[p + 1]);
        assert(t[2] == b@[p + 2]);
        (((b0 & 0x0F) as u32) << 12) | (((b[p + 1] & 0x3f) as u32) << 6) | ((b[p + 2] & 0x3f) as u32)
    } else {
        assert(t[1] == b@[p + 1]);
        assert(t[2] == b@[p + 2]);
        assert(t[3] == b@[p + 3]);
        (((b0 & 0x07) as u32) << 18) | (((b[p + 1] & 0x3f) as u32) << 12) | (((b[p + 2] & 0x3f) as u32)
            << 6) | ((b[p + 3] & 0x3f) as u32)
    };
    assert(c == code_at(b@, p as int));
    let scalar = c <= 0x7F || (0x80 <= c && c <= 0x7FF) || (0x800 <= c && c <= 0xFFFF && !(0xD800 <= c
        && c <= 0xDFFF)) || (0x10000 <= c && c <= 0x10FFFF);
    if !scalar {
        return None;
    }
    Some((c, w))
}

/// The character with the scalar value `c`, as the specification casts it.
fn char_of(c: u32) -> (r: char)
    requires
        vstd::utf8::is_scalar(c),
    ensures
        r == c as char,
{
    let ch = char_from_code(c).unwrap();
    proof {
        vstd::utf8::char_u32_cast(ch, c);
    }
    ch
}

/// Whether the character with code `c` ends a word.
fn ends_word_exec(c: u32) -> (r: bool)
    requires
        vstd::utf8::is_scalar(c),
    ensures
        r == ends_word(c),
{
    if c < 128 {
        let b = c as u8;
        ascii_whitespace(b) || b == VERTICAL_TAB || delimiter_start(b)
    } else {
        char_is_whitespace(char_of(c))
    }
}

/// Whether the character with code `c` is numeric.
fn numeric_exec(c: u32) -> (r: bool)
    requires
        vstd::utf8::is_scalar(c),
    ensures
        r == numeric_code(c),
{
    if c < 128 {
        48 <= c && c <= 57
    } else {
        char_is_numeric(char_of(c))
    }
}

/// Whether the character with code `c` is alphabetic.
fn alphabetic_exec(c: u32) -> (r: bool)
    requires
        vstd::utf8::is_scalar(c),
    ensures
        r == alphabetic_code(c),
{
    if c < 128 {
        (65 <= c && c <= 90) || (97 <= c && c <= 122)
    } else {
        char_is_alphabetic(char_of(c))
    }
}

/// The number of characters from `from` up to `to`.
fn count_chars_in(b: &[u8], from: usize, to: usize) -> (r: usize)
    requires
        from <= to <= b@.len(),
    ensures
        r == count_chars(b@.subrange(from as int, to as int)),
        r <= to - from,
{
    let mut n: usize = 0;
    let mut k = from;
    while k < to
        invariant
            from <= k <= to <= b@.len(),
            n == count_chars(b@.subrange(from as int, k as int)),
            n <= k - from,
        decreases to - k,
    {
        assert(b@.subrange(from as int, k + 1).drop_last() =~= b@.subrange(from as int, k as int));
        if !(0x80 <= b[k] && b[k] <= 0xbf) {
            n = n + 1;
        }
        k = k + 1;
    }
    n
}

/// Whether the input may be cut at `p`.
fn cut_ok(b: &[u8], p: usize) -> (r: bool)
    ensures
        r == cut_at(b@, p as int),
{
    p == b.len() || (p < b.len() && !(0x80 <= b[p] && b[p] <= 0xbf))
}

/// The number of characters of the word that starts at `j`.
fn word_chars_exec(b: &[u8], j: usize) -> (r: Option<usize>)
    requires
        j <= b@.len(),
    ensures
        r is None <==> word_chars(b@, j as int) is None,
        r matches Some(k) ==> word_chars(b@, j as int) == Some(k as nat) && k <= b@.len() - j,
{
    let mut p = j;
    let mut n: usize = 0;
    while p < b.len()
        invariant
            j <= p <= b@.len(),
            n <= p - j,
            word_chars(b@, j as int) == match word_chars(b@, p as int) {
                Some(m) => Some((n + m) as nat),
                None => None::<nat>,
            },
        decreases b@.len() - p,
    {
        match decode_at(b, p) {
            None => {
                return None;
            },
            Some((c, w)) => {
                proof {
                    lemma_width_range(b@, p as int);
                }
                if ends_word_exec(c) {
                    return Some(n);
                }
                n = n + 1;
                p = p + w;
            },
        }
    }
    Some(n)
}

/// Whether every character from `j` up to `e` is numeric.
fn numeric_from_exec(b: &[u8], j: usize, e: usize) -> (r: Option<bool>)
    requires
        j <= e <= b@.len(),
    ensures
        r == numeric_from(b@, j as int, e as int),
{
    let mut p = j;
    let mut all = true;
    let len = b.len();
    while p < e
        invariant
            len == b@.len(),
            j <= p <= b@.len(),
            e <= b@.len(),
            numeric_from(b@, j as int, e as int) == match numeric_from(b@, p as int, e as int) {
                Some(rest) => Some(all && rest),
                None => None::<bool>,
            },
        decreases b@.len() - p,
    {
        match decode_at(b, p) {
            None => {
                return None;
            },
            Some((c, w)) => {
                proof {
                    lemma_width_range(b@, p as int);
                }
                assert(p + w <= len);
                if !numeric_exec(c) {
                    all = false;
                }
                p = p + w;
            },
        }
    }
    Some(all)
}

impl Tokenizer {
    /// Whether reading the string literal that starts here panics.
    fn string_panics(&self) -> (r: bool)
        requires
            self.wf(),
            starts_string(self.input@, self.index as int),
        ensures
            r == (string_step(self.input@, self.index as int) is Panics),
    {
        let i = self.index;
        let n = self.input.len();
        let mut k = i + 1;
        while k < self.input.len() && self.input[k] != QUOTE
            invariant
                self.wf(),
                i == self.index,
                i < k <= self.input@.len(),
                find_byte(self.input@, k as int, QUOTE) == find_byte(self.input@, i + 1, QUOTE),
            decreases self.input@.len() - k,
        {
            k += 1;
        }
        if k >= self.input.len() {
            false
        } else {
            let end = count_chars_in(self.input.as_slice(), i + 1, k);
            !(cut_ok(self.input.as_slice(), i + 1 + end) && cut_ok(self.input.as_slice(), i + end + 2))
        }
    }

    /// Reads the next token, or skips the next comment.
    pub fn step(&mut self) -> (r: Stepped)
        requires
            old(self).wf(),
        ensures
            final(self).wf(),
            final(self).input@ == old(self).input@,
            match step(old(self).input@, old(self).index as int) {
                Step::Done => r is Done,
                Step::Skip(k) => r is Skipped && final(self).index == k,
                Step::Emit(t, k) => r matches Stepped::Emitted(x) && x@ == t && final(self).index
                    == k,
                Step::Fail(e) => r matches Stepped::Failed(x) && x@ == e,
                Step::Panics => r is Panicked,
            },
    {
        self.eat_whitespace();
        if self.index >= self.input.len() {
            return Stepped::Done;
        }
        if self.eat_comment() {
            return Stepped::Skipped;
        }
        if self.input[self.index] == QUOTE {
            if self.string_panics() {
                return Stepped::Panicked;
            }
            return match self.eat_string() {
                Ok(Some(t)) => Stepped::Emitted(t),
                Ok(None) => Stepped::Done,
                Err(e) => Stepped::Failed(e),
            };
        }
        match self.eat_symbol() {
            Some(t) => {
                return Stepped::Emitted(t);
            },
            None => {},
        }
        match self.eat_word() {
            None => Stepped::Panicked,
            Some(Ok(t)) => Stepped::Emitted(t),
            Some(Err(e)) => Stepped::Failed(e),
        }
    }
}

/// Splits `input` into tokens, or gives `None` where the lexer panics.
pub fn try_tokenize(input: &str) -> (r: Option<Result<Vec<Token>, Error>>)
    ensures
        match spec_tokenize(bytes(input)) {
            Lexed::Tokens(ts) => r matches Some(Ok(v)) && tokens_view(v@) == ts,
            Lexed::Failed(e) => r matches Some(Err(x)) && x@ == e,
            Lexed::Panics => r is None,
        },
{
    let ghost s = bytes(input);
    let mut tok = Tokenizer::new(input);
    let mut tokens: Vec<Token> = Vec::new();
    assert(tokens_view(tokens@) =~= Seq::<TokenV>::empty());
    loop
        invariant
            tok.wf(),
            tok.input@ == s,
            s == bytes(input),
            lex(s, tok.index as int, tokens_view(tokens@)) == spec_tokenize(s),
        decreases s.len() - tok.index,
    {
        let ix = tok.index;
        let ghost acc = tokens_view(tokens@);
        match tok.step() {
            Stepped::Done => {
                assert(step(s, ix as int) is Done);
                return Some(Ok(tokens));
            },
            Stepped::Skipped => {
                if tok.index <= ix {
                    return None;
                }
            },
            Stepped::Emitted(t) => {
                if tok.index <= ix {
                    return None;
                }
                let ghost tv = t@;
                tokens.push(t);
                assert(tokens_view(tokens@) =~= acc.push(tv));
            },
            Stepped::Failed(e) => {
                return Some(Err(e));
            },
            Stepped::Panicked => {
                return None;
            },
        }
    }
}

/// Splits `input` into tokens.
pub fn tokenize(input: &str) -> (r: Result<Vec<Token>, Error>)
    requires
        !(spec_tokenize(bytes(input)) is Panics),
    ensures
        match spec_tokenize(bytes(input)) {
            Lexed::Tokens(ts) => r matches Ok(v) && tokens_view(v@) == ts,
            Lexed::Failed(e) => r matches Err(x) && x@ == e,
            Lexed::Panics => false,
        },
{
    match try_tokenize(input) {
        Some(r) => r,
        None => Ok(Vec::new()),
    }
}

pub const BACKSLASH: u8 = 92;

/// The text of a keyword or delimiter; nothing for the other kinds.
pub open spec fn spec_symbol(k: TokenKindV) -> &'static str {
    match k {
        TokenKindOf::Ident(_) | TokenKindOf::Integer(_) | TokenKindOf::Str(_) => "",
        TokenKindOf::Let => "let",
        TokenKindOf::Return => "return",
        TokenKindOf::If => "if",
        TokenKindOf::While => "while",
        TokenKindOf::Fn => "fn",
        TokenKindOf::Semi => ";",
        TokenKindOf::Colon => ":",
        TokenKindOf::Comma => ",",
        TokenKindOf::OpenCurly => "{",
        TokenKindOf::CloseCurly => "}",
        TokenKindOf::OpenParen => "(",
        TokenKindOf::CloseParen => ")",
        TokenKindOf::Arrow => "->",
        TokenKindOf::AddAssign => "+=",
        TokenKindOf::SubAssign => "-=",
        TokenKindOf::MulAssign => "*=",
        TokenKindOf::DivAssign => "/=",
        TokenKindOf::ModAssign => "%=",
        TokenKindOf::BitAndAssign => "&=",
        TokenKindOf::BitOrAssign => "|=",
        TokenKindOf::XorAssign => "^=",
        TokenKindOf::ShlAssign => "<<=",
        TokenKindOf::ShrAssign => ">>=",
        TokenKindOf::Eq => "==",
        TokenKindOf::Ne => "!=",
        TokenKindOf::Shr => ">>",
        TokenKindOf::Ge => ">=",
        TokenKindOf::Gt => ">",
        TokenKindOf::Shl => "<<",
        TokenKindOf::Le => "<=",
        TokenKindOf::Lt => "<",
        TokenKindOf::And => "&&",
        TokenKindOf::BitAnd => "&",
        TokenKindOf::Or => "||",
        TokenKindOf::BitOr => "|",
        TokenKindOf::Xor => "^",
        TokenKindOf::Not => "!",
        TokenKindOf::Mod => "%",
        TokenKindOf::Equals => "=",
        TokenKindOf::Plus => "+",
        TokenKindOf::Minus => "-",
        TokenKindOf::Asterisk => "*",
        TokenKindOf::Slash => "/",
        TokenKindOf::Variadic => "...",
    }
}

/// The digit of `d`, below sixteen, in lower-case hexadecimal.
pub open spec fn hex_digit(d: u8) -> u8 {
    if d < 10 {
        (48 + d) as u8
    } else {
        (87 + d) as u8
    }
}

/// How a byte of a string literal is shown between quotes: control
/// characters, quotes and backslashes escaped, as Rust's debug format of a
/// string shows them; other bytes as they are.
pub open spec fn escaped(b: u8) -> Seq<u8> {
    if b == 0 {
        seq![BACKSLASH, 48u8]
    } else if b == TAB {
        seq![BACKSLASH, 116u8]
    } else if b == NEWLINE {
        seq![BACKSLASH, 110u8]
    } else if b == CARRIAGE_RETURN {
        seq![BACKSLASH, 114u8]
    } else if b == QUOTE || b == BACKSLASH {
        seq![BACKSLASH, b]
    } else if b < 32 || b == 127 {
        seq![BACKSLASH, 117u8, 123u8] + (if b < 16 {
            seq![hex_digit(b)]
        } else {
            seq![hex_digit(b / 16), hex_digit(b % 16)]
        }) + seq![125u8]
    } else {
        seq![b]
    }
}

/// `escaped` of every byte of `s`, in order.
pub open spec fn escaped_all(s: Seq<u8>) -> Seq<u8>
    decreases s.len(),
{
    if s.len() == 0 {
        seq![]
    } else {
        escaped_all(s.drop_last()) + escaped(s.last())
    }
}

/// How a token kind is shown in messages: identifiers as they are,
/// integers in decimal, strings quoted, and the rest by their text.
pub open spec fn kind_text(k: TokenKindV) -> Seq<u8> {
    match k {
        TokenKindOf::Ident(s) => s,
        TokenKindOf::Integer(n) => crate::text::decimal(n as nat),
        TokenKindOf::Str(s) => seq![QUOTE] + escaped_all(s) + seq![QUOTE],
        _ => bytes(spec_symbol(k)),
    }
}

/// Appends how the byte `b` is shown in a quoted string.
fn push_escaped(out: &mut Vec<u8>, b: u8)
    ensures
        final(out)@ == old(out)@ + escaped(b),
{
    let ghost o = old(out)@;
    if b == 0 || b == TAB || b == NEWLINE || b == CARRIAGE_RETURN || b == QUOTE || b == BACKSLASH {
        out.push(BACKSLASH);
        if b == 0 {
            out.push(48u8);
        } else if b == TAB {
            out.push(116u8);
        } else if b == NEWLINE {
            out.push(110u8);
        } else if b == CARRIAGE_RETURN {
            out.push(114u8);
        } else {
            out.push(b);
        }
        assert(out@ =~= o + escaped(b));
    } else if b < 32 || b == 127 {
        out.push(BACKSLASH);
        out.push(117u8);
        out.push(123u8);
        if b < 16 {
            out.push(if b < 10 { 48 + b } else { 87 + b });
        } else {
            let hi = b / 16;
            let lo = b % 16;
            out.push(if hi < 10 { 48 + hi } else { 87 + hi });
            out.push(if lo < 10 { 48 + lo } else { 87 + lo });
        }
        out.push(125u8);
        assert(out@ =~= o + escaped(b));
    } else {
        out.push(b);
        assert(out@ =~= o + escaped(b));
    }
}

impl TokenKindOf<Vec<u8>> {
    /// The text of a keyword or delimiter; nothing for the other kinds.
    pub fn symbol(&self) -> (r: &'static str)
        ensures
            r == spec_symbol(self@),
    {
        match self {
            TokenKindOf::Ident(_) | TokenKindOf::Integer(_) | TokenKindOf::Str(_) => "",
            TokenKindOf::Let => "let",
            TokenKindOf::Return => "return",
            TokenKindOf::If => "if",
            TokenKindOf::While => "while",
            TokenKindOf::Fn => "fn",
            TokenKindOf::Semi => ";",
            TokenKindOf::Colon => ":",
            TokenKindOf::Comma => ",",
            TokenKindOf::OpenCurly => "{",
            TokenKindOf::CloseCurly => "}",
            TokenKindOf::OpenParen => "(",
            TokenKindOf::CloseParen => ")",
            TokenKindOf::Arrow => "->",
            TokenKindOf::AddAssign => "+=",
            TokenKindOf::SubAssign => "-=",
            TokenKindOf::MulAssign => "*=",
            TokenKindOf::DivAssign => "/=",
            TokenKindOf::ModAssign => "%=",
            TokenKindOf::BitAndAssign => "&=",
            TokenKindOf::BitOrAssign => "|=",
            TokenKindOf::XorAssign => "^=",
            TokenKindOf::ShlAssign => "<<=",
            TokenKindOf::ShrAssign => ">>=",
            TokenKindOf::Eq => "==",
            TokenKindOf::Ne => "!=",
            TokenKindOf::Shr => ">>",
            TokenKindOf::Ge => ">=",
            TokenKindOf::Gt => ">",
            TokenKindOf::Shl => "<<",
            TokenKindOf::Le => "<=",
            TokenKindOf::Lt => "<",
            TokenKindOf::And => "&&",
            TokenKindOf::BitAnd => "&",
            TokenKindOf::Or => "||",
            TokenKindOf::BitOr => "|",
            TokenKindOf::Xor => "^",
            TokenKindOf::Not => "!",
            TokenKindOf::Mod => "%",
            TokenKindOf::Equals => "=",
            TokenKindOf::Plus => "+",
            TokenKindOf::Minus => "-",
            TokenKindOf::Asterisk => "*",
            TokenKindOf::Slash => "/",
            TokenKindOf::Variadic => "...",
        }
    }

    /// How the token kind is shown in messages.
    pub fn text(&self) -> (r: Vec<u8>)
        ensures
            r@ == kind_text(self@),
    {
        let mut out: Vec<u8> = Vec::new();
        match self {
            TokenKindOf::Ident(s) => {
                push_bytes(&mut out, s);
            },
            TokenKindOf::Integer(n) => {
                push_decimal(&mut out, *n);
            },
            TokenKindOf::Str(s) => {
                out.push(QUOTE);
                let mut i: usize = 0;
                while i < s.len()
                    invariant
                        0 <= i <= s@.len(),
                        out@ == seq![QUOTE] + escaped_all(s@.take(i as int)),
                    decreases s@.len() - i,
                {
                    let ghost before = out@;
                    push_escaped(&mut out, s[i]);
                    assert(s@.take(i + 1).drop_last() =~= s@.take(i as int));
                    assert(out@ =~= seq![QUOTE] + escaped_all(s@.take(i + 1)));
                    i += 1;
                }
                assert(s@.take(s@.len() as int) =~= s@);
                out.push(QUOTE);
            },
            _ => {
                push_str(&mut out, self.symbol());
            },
        }
        assert(out@ =~= kind_text(self@));
        out
    }
}

/// The message of a lexing error.
pub open spec fn lex_message(e: ErrorV) -> Seq<u8> {
    match e.kind {
        ErrorKindOf::StrDelim => bytes("Missing closing string delimiter"),
        ErrorKindOf::Ident(s) => bytes("Invalid ident `") + s + bytes("`"),
        ErrorKindOf::Integer(s) => bytes("Invalid integer `") + s + bytes("`"),
    }
}

impl ErrorOf<Vec<u8>> {
    /// The message of the error.
    pub fn message(&self) -> (r: Vec<u8>)
        ensures
            r@ == lex_message(self@),
    {
        let mut out: Vec<u8> = Vec::new();
        match &self.kind {
            ErrorKindOf::StrDelim => push_str(&mut out, "Missing closing string delimiter"),
            ErrorKindOf::Ident(s) => {
                push_str(&mut out, "Invalid ident `");
                push_bytes(&mut out, s);
                push_str(&mut out, "`");
            },
            ErrorKindOf::Integer(s) => {
                push_str(&mut out, "Invalid integer `");
                push_bytes(&mut out, s);
                push_str(&mut out, "`");
            },
        }
        assert(out@ =~= lex_message(self@));
        out
    }
}

} // verus!
