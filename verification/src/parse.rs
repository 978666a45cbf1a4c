//! The parser of the first version of the language: recursive descent over
//! a slice of tokens, with precedence climbing for binary operators.
use crate::ast::{
    asts_v, block_v, decls_v, expr_span, expr_v, exprs_v, ast_v, Ast, AstV, BinOp,
    BinOpKind, BinOpV, Block, BlockV, Call, CallV, Declaration, DeclarationV, Expr, ExprV, Func,
    FuncV, Ident, IdentV, If, IfV, Literal, LiteralKind, LiteralKindV, LiteralV, Return,
    ReturnV, Type, TypeKind, UnaryOp, UnaryOpKind, UnaryOpV, While, WhileV,
};
use crate::text::{bytes, bytes_eq, copy_bytes, push_bytes, push_str};
use crate::tokenize::{kind_text, tokens_view, Span, Token, TokenKind, TokenKindOf, TokenKindV, TokenOf, TokenV};
use vstd::prelude::*;

verus! {

/// What went wrong while parsing.
#[derive(Debug, PartialEq, Eq)]
pub enum ErrorKindOf<S> {
    /// The construct tried does not start here; another may.
    Recoverable,
    Expected { expected: TokenKindOf<S>, got: Option<TokenKindOf<S>> },
    ExpectedIdent { got: TokenKindOf<S> },
    UnmatchedDelimiter { delimiter: TokenKindOf<S> },
    Declaraction { kind: &'static str },
    Expression { got: TokenKindOf<S> },
}

/// A parse error and where it was found.
#[derive(Debug, PartialEq, Eq)]
pub struct ErrorOf<S> {
    pub kind: ErrorKindOf<S>,
    pub span: Span,
}

pub type ErrorKind = ErrorKindOf<Vec<u8>>;

pub type Error = ErrorOf<Vec<u8>>;

pub type ErrorV = ErrorOf<Seq<u8>>;

impl View for ErrorOf<Vec<u8>> {
    type V = ErrorOf<Seq<u8>>;

    open spec fn view(&self) -> ErrorOf<Seq<u8>> {
        ErrorOf {
            kind: match self.kind {
                ErrorKindOf::Recoverable => ErrorKindOf::Recoverable,
                ErrorKindOf::Expected { expected, got } => ErrorKindOf::Expected {
                    expected: expected@,
                    got: match got {
                        Some(g) => Some(g@),
                        None => None,
                    },
                },
                ErrorKindOf::ExpectedIdent { got } => ErrorKindOf::ExpectedIdent { got: got@ },
                ErrorKindOf::UnmatchedDelimiter { delimiter } => ErrorKindOf::UnmatchedDelimiter {
                    delimiter: delimiter@,
                },
                ErrorKindOf::Declaraction { kind } => ErrorKindOf::Declaraction { kind },
                ErrorKindOf::Expression { got } => ErrorKindOf::Expression { got: got@ },
            },
            span: self.span,
        }
    }
}

/// The message of a parse error.
pub open spec fn parse_message(e: ErrorV) -> Seq<u8> {
    match e.kind {
        ErrorKindOf::Recoverable => bytes("Recoverable error not handled, this is a bug!"),
        ErrorKindOf::Expected { expected, got } => match got {
            Some(g) => bytes("Expected `") + kind_text(expected) + bytes("`, got `") + kind_text(g)
                + bytes("`"),
            None => bytes("Expected `") + kind_text(expected) + bytes("`"),
        },
        ErrorKindOf::ExpectedIdent { got } => bytes("Expected identifier, got `") + kind_text(got)
            + bytes("`"),
        ErrorKindOf::UnmatchedDelimiter { delimiter } => bytes("Unmatched delimiter `") + kind_text(
            delimiter,
        ) + bytes("`"),
        ErrorKindOf::Declaraction { kind } => bytes("Invalid ") + bytes(kind) + bytes(" declaration"),
        ErrorKindOf::Expression { got } => bytes("Invalid expression `") + kind_text(got) + bytes("`"),
    }
}

impl ErrorOf<Vec<u8>> {
    /// The message of the error.
    pub fn message(&self) -> (r: Vec<u8>)
        ensures
            r@ == parse_message(self@),
    {
        let mut out: Vec<u8> = Vec::new();
        match &self.kind {
            ErrorKindOf::Recoverable => push_str(&mut out, "Recoverable error not handled, this is a bug!"),
            ErrorKindOf::Expected { expected, got } => {
                push_str(&mut out, "Expected `");
                push_bytes(&mut out, &expected.text());
                match got {
                    Some(g) => {
                        push_str(&mut out, "`, got `");
                        push_bytes(&mut out, &g.text());
                        push_str(&mut out, "`");
                    },
                    None => push_str(&mut out, "`"),
                }
            },
            ErrorKindOf::ExpectedIdent { got } => {
                push_str(&mut out, "Expected identifier, got `");
                push_bytes(&mut out, &got.text());
                push_str(&mut out, "`");
            },
            ErrorKindOf::UnmatchedDelimiter { delimiter } => {
                push_str(&mut out, "Unmatched delimiter `");
                push_bytes(&mut out, &delimiter.text());
                push_str(&mut out, "`");
            },
            ErrorKindOf::Declaraction { kind } => {
                push_str(&mut out, "Invalid ");
                push_str(&mut out, kind);
                push_str(&mut out, " declaration");
            },
            ErrorKindOf::Expression { got } => {
                push_str(&mut out, "Invalid expression `");
                push_bytes(&mut out, &got.text());
                push_str(&mut out, "`");
            },
        }
        assert(out@ =~= parse_message(self@));
        out
    }
}

/// The outcome of parsing a prefix of a token sequence: a value and how many
/// tokens it took, an error, or a panic of the parser.
pub enum Parsed<T> {
    Val(T, int),
    Error(ErrorV),
    Panics,
}

/// The outcome `p` with `k` more tokens taken.
pub open spec fn shifted<T>(p: Parsed<T>, k: int) -> Parsed<T> {
    match p {
        Parsed::Val(v, n) => Parsed::Val(v, n + k),
        Parsed::Error(e) => Parsed::Error(e),
        Parsed::Panics => Parsed::Panics,
    }
}

/// The type every declaration of this version has.
pub open spec fn u64_type() -> Type {
    Type::spec_new(TypeKind::U64)
}

pub open spec fn recoverable() -> ErrorV {
    ErrorOf { kind: ErrorKindOf::Recoverable, span: Span { start: 0, end: 0 } }
}

/// `None` where the token has kind `k`, else the error that says so.
pub open spec fn expect(t: TokenV, k: TokenKindV) -> Option<ErrorV> {
    if t.kind == k {
        None
    } else {
        Some(
            ErrorOf { kind: ErrorKindOf::Expected { expected: k, got: Some(t.kind) }, span: t.span },
        )
    }
}

/// The text of an identifier token, or the error that says it is none.
pub open spec fn ident_of(t: TokenV) -> Result<Seq<u8>, ErrorV> {
    match t.kind {
        TokenKindV::Ident(s) => Ok(s),
        _ => Err(ErrorOf { kind: ErrorKindOf::ExpectedIdent { got: t.kind }, span: t.span }),
    }
}

/// The position of the token that closes the delimiter opened at
/// position 0, counting from depth `depth` at position `i`.
pub open spec fn match_pos(
    ts: Seq<TokenV>,
    open: TokenKindV,
    close: TokenKindV,
    i: int,
    depth: int,
) -> Option<int>
    decreases ts.len() - i,
{
    if i < 0 || i >= ts.len() {
        None
    } else {
        let d = if ts[i].kind == open {
            depth + 1
        } else if ts[i].kind == close {
            depth - 1
        } else {
            depth
        };
        if d == 0 {
            Some(i)
        } else {
            match_pos(ts, open, close, i + 1, d)
        }
    }
}

/// The first position at which the nesting depth of `open` and `close`
/// comes back to zero.
pub open spec fn find_matching(ts: Seq<TokenV>, open: TokenKindV, close: TokenKindV) -> Parsed<
    (),
> {
    if ts.len() == 0 {
        Parsed::Panics
    } else {
        match match_pos(ts, open, close, 0, 0) {
            Some(i) => Parsed::Val((), i),
            None => Parsed::Error(
                ErrorOf {
                    kind: ErrorKindOf::UnmatchedDelimiter { delimiter: ts[0].kind },
                    span: ts[0].span,
                },
            ),
        }
    }
}

/// The first position at or after `i` holding a token of kind `k`.
pub open spec fn find_kind(ts: Seq<TokenV>, k: TokenKindV, i: int) -> Option<int>
    decreases ts.len() - i,
{
    if i < 0 || i >= ts.len() {
        None
    } else if ts[i].kind == k {
        Some(i)
    } else {
        find_kind(ts, k, i + 1)
    }
}

/// The row of the precedence table that holds `k`, counted from one;
/// rows further down bind tighter.
pub open spec fn spec_precedence(k: BinOpKind) -> nat {
    match k {
        BinOpKind::Assign | BinOpKind::AddAssign | BinOpKind::SubAssign | BinOpKind::MulAssign
        | BinOpKind::DivAssign | BinOpKind::ModAssign | BinOpKind::BitAndAssign
        | BinOpKind::BitOrAssign | BinOpKind::XorAssign | BinOpKind::ShlAssign
        | BinOpKind::ShrAssign => 1,
        BinOpKind::Or => 2,
        BinOpKind::And => 3,
        BinOpKind::Gt | BinOpKind::Ge | BinOpKind::Lt | BinOpKind::Le | BinOpKind::Eq
        | BinOpKind::Ne => 4,
        BinOpKind::BitOr => 5,
        BinOpKind::Xor => 6,
        BinOpKind::BitAnd => 7,
        BinOpKind::Shr | BinOpKind::Shl => 8,
        BinOpKind::Add | BinOpKind::Sub => 9,
        BinOpKind::Mul | BinOpKind::Div | BinOpKind::Mod => 10,
    }
}

/// Operators bind as in Rust, from loosest to tightest: the assignments,
/// `||`, `&&`, the comparisons, `|`, `^`, `&`, the shifts, `+` and `-`, and
/// `*`, `/` and `%`; the operators of one group bind alike.
pub proof fn law_precedence_order()
    ensures
        spec_precedence(BinOpKind::Assign) < spec_precedence(BinOpKind::Or),
        spec_precedence(BinOpKind::Or) < spec_precedence(BinOpKind::And),
        spec_precedence(BinOpKind::And) < spec_precedence(BinOpKind::Eq),
        spec_precedence(BinOpKind::Eq) < spec_precedence(BinOpKind::BitOr),
        spec_precedence(BinOpKind::BitOr) < spec_precedence(BinOpKind::Xor),
        spec_precedence(BinOpKind::Xor) < spec_precedence(BinOpKind::BitAnd),
        spec_precedence(BinOpKind::BitAnd) < spec_precedence(BinOpKind::Shl),
        spec_precedence(BinOpKind::Shl) < spec_precedence(BinOpKind::Add),
        spec_precedence(BinOpKind::Add) < spec_precedence(BinOpKind::Mul),
        forall|k: BinOpKind| k.is_compound() ==> spec_precedence(k) == spec_precedence(BinOpKind::Assign),
        spec_precedence(BinOpKind::Ne) == spec_precedence(BinOpKind::Eq),
        spec_precedence(BinOpKind::Gt) == spec_precedence(BinOpKind::Eq),
        spec_precedence(BinOpKind::Ge) == spec_precedence(BinOpKind::Eq),
        spec_precedence(BinOpKind::Lt) == spec_precedence(BinOpKind::Eq),
        spec_precedence(BinOpKind::Le) == spec_precedence(BinOpKind::Eq),
        spec_precedence(BinOpKind::Shr) == spec_precedence(BinOpKind::Shl),
        spec_precedence(BinOpKind::Sub) == spec_precedence(BinOpKind::Add),
        spec_precedence(BinOpKind::Div) == spec_precedence(BinOpKind::Mul),
        spec_precedence(BinOpKind::Mod) == spec_precedence(BinOpKind::Mul),
{
}

/// The number of rows of the precedence table.
pub open spec fn spec_max_precedence() -> nat {
    10
}

/// The binary operator that a token stands for.
pub open spec fn spec_from_token(k: TokenKindV) -> Option<BinOpKind> {
    match k {
        TokenKindV::Plus => Some(BinOpKind::Add),
        TokenKindV::Minus => Some(BinOpKind::Sub),
        TokenKindV::Asterisk => Some(BinOpKind::Mul),
        TokenKindV::Slash => Some(BinOpKind::Div),
        TokenKindV::Mod => Some(BinOpKind::Mod),
        TokenKindV::Eq => Some(BinOpKind::Eq),
        TokenKindV::Ne => Some(BinOpKind::Ne),
        TokenKindV::Gt => Some(BinOpKind::Gt),
        TokenKindV::Ge => Some(BinOpKind::Ge),
        TokenKindV::Lt => Some(BinOpKind::Lt),
        TokenKindV::Le => Some(BinOpKind::Le),
        TokenKindV::And => Some(BinOpKind::And),
        TokenKindV::Or => Some(BinOpKind::Or),
        TokenKindV::BitAnd => Some(BinOpKind::BitAnd),
        TokenKindV::BitOr => Some(BinOpKind::BitOr),
        TokenKindV::Xor => Some(BinOpKind::Xor),
        TokenKindV::Shr => Some(BinOpKind::Shr),
        TokenKindV::Shl => Some(BinOpKind::Shl),
        TokenKindV::Equals => Some(BinOpKind::Assign),
        TokenKindV::AddAssign => Some(BinOpKind::AddAssign),
        TokenKindV::SubAssign => Some(BinOpKind::SubAssign),
        TokenKindV::MulAssign => Some(BinOpKind::MulAssign),
        TokenKindV::DivAssign => Some(BinOpKind::DivAssign),
        TokenKindV::ModAssign => Some(BinOpKind::ModAssign),
        TokenKindV::BitAndAssign => Some(BinOpKind::BitAndAssign),
        TokenKindV::BitOrAssign => Some(BinOpKind::BitOrAssign),
        TokenKindV::XorAssign => Some(BinOpKind::XorAssign),
        TokenKindV::ShlAssign => Some(BinOpKind::ShlAssign),
        TokenKindV::ShrAssign => Some(BinOpKind::ShrAssign),
        _ => None,
    }
}

pub open spec fn bin_rank(prec: nat) -> int {
    if prec >= 11 {
        1
    } else {
        12 - prec
    }
}

/// A primary expression: a declaration, a call, a name, a literal, a
/// negation or a parenthesised expression.
pub open spec fn p_expr(ts: Seq<TokenV>) -> Parsed<ExprV>
    decreases ts.len(), 0int,
{
    if ts.len() == 0 {
        Parsed::Panics
    } else {
        let tok = ts[0];
        match tok.kind {
            TokenKindV::Let => if ts.len() < 2 {
                Parsed::Panics
            } else {
                match ident_of(ts[1]) {
                    Err(e) => Parsed::Error(e),
                    Ok(name) => if ts.len() < 3 {
                        Parsed::Panics
                    } else {
                        match expect(ts[2], TokenKindV::Equals) {
                            Some(e) => Parsed::Error(e),
                            None => match p_bin_op(ts.skip(3), 0) {
                                Parsed::Val(rhs, n) => Parsed::Val(
                                    ExprV::Declaration(
                                        DeclarationV {
                                            span: tok.span.spec_collapse(expr_span(rhs)),
                                            ident: IdentV { span: ts[1].span, value: name },
                                            ty: Some(u64_type()),
                                            rhs: Some(Box::new(rhs)),
                                        },
                                    ),
                                    n + 3,
                                ),
                                Parsed::Error(e) => Parsed::Error(e),
                                Parsed::Panics => Parsed::Panics,
                            },
                        }
                    },
                }
            },
            TokenKindV::Ident(name) => if ts.len() >= 2 && ts[1].kind == TokenKindV::OpenParen {
                let rest = ts.skip(1);
                match find_matching(rest, TokenKindV::OpenParen, TokenKindV::CloseParen) {
                    Parsed::Val(_, end) => if 1 <= end < rest.len() {
                        match p_args(rest.subrange(1, end)) {
                            Parsed::Val(args, _) => Parsed::Val(
                                ExprV::Call(
                                    CallV {
                                        span: tok.span.spec_collapse(rest[end].span),
                                        ident: IdentV { span: tok.span, value: name },
                                        arguments: args,
                                    },
                                ),
                                end + 2,
                            ),
                            Parsed::Error(e) => Parsed::Error(e),
                            Parsed::Panics => Parsed::Panics,
                        }
                    } else {
                        Parsed::Panics
                    },
                    Parsed::Error(e) => Parsed::Error(e),
                    Parsed::Panics => Parsed::Panics,
                }
            } else {
                Parsed::Val(ExprV::Ident(IdentV { span: tok.span, value: name }), 1)
            },
            TokenKindV::Integer(n) => Parsed::Val(
                ExprV::Literal(LiteralV { span: tok.span, kind: LiteralKindV::Integer(n) }),
                1,
            ),
            TokenKindV::Str(s) => Parsed::Val(
                ExprV::Literal(LiteralV { span: tok.span, kind: LiteralKindV::Str(s) }),
                1,
            ),
            TokenKindV::Not => match p_expr(ts.skip(1)) {
                Parsed::Val(inner, n) => Parsed::Val(
                    ExprV::UnaryOp(
                        UnaryOpV {
                            span: tok.span.spec_collapse(expr_span(inner)),
                            kind: UnaryOpKind::Not,
                            expr: Box::new(inner),
                        },
                    ),
                    n + 1,
                ),
                Parsed::Error(e) => Parsed::Error(e),
                Parsed::Panics => Parsed::Panics,
            },
            TokenKindV::OpenParen => match p_bin_op(ts.skip(1), 0) {
                Parsed::Val(inner, n) => if 0 <= n && n + 1 < ts.len() {
                    match expect(ts[n + 1], TokenKindV::CloseParen) {
                        Some(e) => Parsed::Error(e),
                        None => Parsed::Val(inner, n + 2),
                    }
                } else {
                    Parsed::Panics
                },
                Parsed::Error(e) => Parsed::Error(e),
                Parsed::Panics => Parsed::Panics,
            },
            _ => Parsed::Error(
                ErrorOf { kind: ErrorKindOf::Expression { got: tok.kind }, span: tok.span },
            ),
        }
    }
}

/// An expression whose operators all bind at least as tightly as row
/// `prec` of the precedence table.
pub open spec fn p_bin_op(ts: Seq<TokenV>, prec: nat) -> Parsed<ExprV>
    decreases ts.len(), bin_rank(prec),
{
    if prec > spec_max_precedence() {
        p_expr(ts)
    } else {
        match p_bin_op(ts, prec + 1) {
            Parsed::Val(lhs, n) => if 0 < n <= ts.len() {
                shifted(p_bin_loop(ts.skip(n), lhs, prec), n)
            } else {
                Parsed::Panics
            },
            Parsed::Error(e) => Parsed::Error(e),
            Parsed::Panics => Parsed::Panics,
        }
    }
}

/// Folds operators of row `prec` and their right operands into `lhs`, from
/// left to right.
pub open spec fn p_bin_loop(ts: Seq<TokenV>, lhs: ExprV, prec: nat) -> Parsed<ExprV>
    decreases ts.len(), 0int,
{
    if ts.len() > 0 && spec_from_token(ts[0].kind) is Some && spec_precedence(
        spec_from_token(ts[0].kind)->0,
    ) == prec {
        let op = spec_from_token(ts[0].kind)->0;
        match p_bin_op(ts.skip(1), prec + 1) {
            Parsed::Val(rhs, n) => if 0 <= n < ts.len() {
                shifted(
                    p_bin_loop(
                        ts.skip(n + 1),
                        ExprV::BinOp(
                            BinOpV {
                                span: expr_span(lhs).spec_collapse(expr_span(rhs)),
                                kind: op,
                                lhs: Box::new(lhs),
                                rhs: Box::new(rhs),
                            },
                        ),
                        prec,
                    ),
                    n + 1,
                )
            } else {
                Parsed::Panics
            },
            Parsed::Error(e) => Parsed::Error(e),
            Parsed::Panics => Parsed::Panics,
        }
    } else {
        Parsed::Val(lhs, 0)
    }
}

/// The comma-separated expressions of `ts`, after the ones in `acc`; each
/// piece between commas is parsed on its own.
pub open spec fn p_split(ts: Seq<TokenV>, acc: Seq<ExprV>) -> Parsed<Seq<ExprV>>
    decreases ts.len(), 13int,
{
    let c = find_kind(ts, TokenKindV::Comma, 0);
    let piece = match c {
        Some(c) => if 0 <= c <= ts.len() {
            ts.subrange(0, c)
        } else {
            ts
        },
        None => ts,
    };
    match p_bin_op(piece, 0) {
        Parsed::Val(e, _) => match c {
            None => Parsed::Val(acc.push(e), 0),
            Some(c) => if 0 <= c < ts.len() {
                p_split(ts.skip(c + 1), acc.push(e))
            } else {
                Parsed::Panics
            },
        },
        Parsed::Error(e) => Parsed::Error(e),
        Parsed::Panics => Parsed::Panics,
    }
}

/// The arguments of a call: nothing, or comma-separated expressions.
pub open spec fn p_args(ts: Seq<TokenV>) -> Parsed<Seq<ExprV>>
    decreases ts.len(), 14int,
{
    if ts.len() == 0 {
        Parsed::Val(seq![], 0)
    } else {
        p_split(ts, seq![])
    }
}

/// A `return` statement.
pub open spec fn p_ret(ts: Seq<TokenV>) -> Parsed<AstV> {
    if ts.len() == 0 {
        Parsed::Panics
    } else if ts[0].kind != TokenKindV::Return {
        Parsed::Error(recoverable())
    } else if ts.len() < 2 {
        Parsed::Panics
    } else if ts[1].kind == TokenKindV::Semi {
        Parsed::Val(AstV::Return(ReturnV { span: ts[0].span, expr: None }), 2)
    } else {
        match p_bin_op(ts.skip(1), 0) {
            Parsed::Val(e, n) => if 0 <= n && n + 1 < ts.len() {
                match expect(ts[n + 1], TokenKindV::Semi) {
                    Some(err) => Parsed::Error(err),
                    None => Parsed::Val(
                        AstV::Return(
                            ReturnV { span: ts[0].span.spec_collapse(expr_span(e)), expr: Some(e) },
                        ),
                        n + 2,
                    ),
                }
            } else {
                Parsed::Panics
            },
            Parsed::Error(err) => Parsed::Error(err),
            Parsed::Panics => Parsed::Panics,
        }
    }
}

/// An expression statement, ended by a semicolon.
pub open spec fn p_lvalue(ts: Seq<TokenV>) -> Parsed<AstV> {
    match p_bin_op(ts, 0) {
        Parsed::Val(e, n) => if 0 <= n < ts.len() {
            match expect(ts[n], TokenKindV::Semi) {
                Some(err) => Parsed::Error(err),
                None => Parsed::Val(AstV::Expr(e), n + 1),
            }
        } else {
            Parsed::Panics
        },
        Parsed::Error(err) => Parsed::Error(err),
        Parsed::Panics => Parsed::Panics,
    }
}

/// A block whose first token has been checked to be `{`: the statements up
/// to the matching `}`.
pub open spec fn p_block_body(ts: Seq<TokenV>) -> Parsed<BlockV>
    decreases ts.len(), 0int,
{
    match find_matching(ts, TokenKindV::OpenCurly, TokenKindV::CloseCurly) {
        Parsed::Val(_, end) => if 1 <= end < ts.len() {
            match p_stmts(ts.subrange(1, end), seq![]) {
                Parsed::Val(stmts, _) => Parsed::Val(
                    BlockV { span: ts[0].span.spec_collapse(ts[end].span), statements: stmts },
                    end + 1,
                ),
                Parsed::Error(e) => Parsed::Error(e),
                Parsed::Panics => Parsed::Panics,
            }
        } else {
            Parsed::Panics
        },
        Parsed::Error(e) => Parsed::Error(e),
        Parsed::Panics => Parsed::Panics,
    }
}

/// A block, which must be there.
pub open spec fn p_block(ts: Seq<TokenV>) -> Parsed<BlockV>
    decreases ts.len(), 1int,
{
    if ts.len() == 0 {
        Parsed::Panics
    } else {
        match expect(ts[0], TokenKindV::OpenCurly) {
            Some(e) => Parsed::Error(e),
            None => p_block_body(ts),
        }
    }
}

/// A block used as a statement.
pub open spec fn p_block_ast(ts: Seq<TokenV>) -> Parsed<AstV>
    decreases ts.len(), 1int,
{
    if ts.len() == 0 {
        Parsed::Panics
    } else if ts[0].kind != TokenKindV::OpenCurly {
        Parsed::Error(recoverable())
    } else {
        match p_block_body(ts) {
            Parsed::Val(b, n) => Parsed::Val(AstV::Block(b), n),
            Parsed::Error(e) => Parsed::Error(e),
            Parsed::Panics => Parsed::Panics,
        }
    }
}

/// `if` or `while`, by `is_if`: a keyword, a condition and a block.
pub open spec fn p_cond(ts: Seq<TokenV>, is_if: bool) -> Parsed<AstV>
    decreases ts.len(), 2int,
{
    let keyword = if is_if {
        TokenKindV::If
    } else {
        TokenKindV::While
    };
    if ts.len() == 0 {
        Parsed::Panics
    } else if ts[0].kind != keyword {
        Parsed::Error(recoverable())
    } else {
        match p_bin_op(ts.skip(1), 0) {
            Parsed::Val(c, n) => if 0 <= n && n + 1 <= ts.len() {
                match p_block(ts.skip(n + 1)) {
                    Parsed::Val(b, m) => {
                        let span = ts[0].span.spec_collapse(b.span);
                        Parsed::Val(
                            if is_if {
                                AstV::If(IfV { span, condition: c, body: b })
                            } else {
                                AstV::While(WhileV { span, condition: c, body: b })
                            },
                            n + 1 + m,
                        )
                    },
                    Parsed::Error(e) => Parsed::Error(e),
                    Parsed::Panics => Parsed::Panics,
                }
            } else {
                Parsed::Panics
            },
            Parsed::Error(e) => Parsed::Error(e),
            Parsed::Panics => Parsed::Panics,
        }
    }
}

/// The outcome of parsing a parameter list.
pub enum Params {
    Val(bool, Seq<DeclarationV>),
    Error(ErrorV),
    Panics,
}

/// One parameter: `name: u64`.
pub open spec fn p_param(param: Seq<TokenV>, start: Span) -> Result<DeclarationV, ErrorV> {
    if param.len() != 3 {
        Err(ErrorOf { kind: ErrorKindOf::Declaraction { kind: "parameter" }, span: start })
    } else {
        match ident_of(param[0]) {
            Err(e) => Err(e),
            Ok(name) => match expect(param[1], TokenKindV::Colon) {
                Some(e) => Err(e),
                None => match ident_of(param[2]) {
                    Err(e) => Err(e),
                    Ok(ty) => Ok(
                        DeclarationV {
                            span: param[0].span.spec_collapse(param[2].span),
                            ident: IdentV { span: param[0].span, value: name },
                            ty: Some(u64_type()),
                            rhs: None,
                        },
                    ),
                },
            },
        }
    }
}

/// The type named by a well-formed parameter, which must be `u64`.
pub open spec fn param_type_ok(param: Seq<TokenV>) -> bool {
    param.len() == 3 ==> match param[2].kind {
        TokenKindV::Ident(ty) => ty == crate::text::bytes("u64"),
        _ => true,
    }
}

/// The comma-separated parameters of `ts`, after the ones in `acc`; `var`
/// tells whether `...` has been seen.
pub open spec fn p_params_from(
    ts: Seq<TokenV>,
    start: Span,
    var: bool,
    acc: Seq<DeclarationV>,
) -> Params
    decreases ts.len(),
{
    let c = find_kind(ts, TokenKindV::Comma, 0);
    let piece = match c {
        Some(c) => if 0 <= c <= ts.len() {
            ts.subrange(0, c)
        } else {
            ts
        },
        None => ts,
    };
    let variadic_piece = piece.len() == 1 && piece[0].kind == TokenKindV::Variadic;
    let decl = p_param(piece, start);
    if !variadic_piece && decl is Err {
        Params::Error(decl->Err_0)
    } else if !variadic_piece && !param_type_ok(piece) {
        Params::Panics
    } else {
        let var2 = var || variadic_piece;
        let acc2 = if variadic_piece {
            acc
        } else {
            acc.push(decl->Ok_0)
        };
        match c {
            None => Params::Val(var2, acc2),
            Some(c) => if 0 <= c < ts.len() {
                p_params_from(ts.skip(c + 1), start, var2, acc2)
            } else {
                Params::Panics
            },
        }
    }
}

/// A parameter list: nothing, or comma-separated parameters.
pub open spec fn p_params(ts: Seq<TokenV>) -> Params {
    if ts.len() == 0 {
        Params::Val(false, seq![])
    } else {
        p_params_from(ts, ts[0].span, false, seq![])
    }
}

/// The declared result of a function with `-> u64`.
pub open spec fn u64_result(span: Span) -> DeclarationV {
    DeclarationV {
        span,
        ident: IdentV { span: Span { start: 0, end: 0 }, value: seq![] },
        ty: Some(u64_type()),
        rhs: None,
    }
}

/// A function definition.
pub open spec fn p_func(ts: Seq<TokenV>) -> Parsed<AstV>
    decreases ts.len(), 2int,
{
    if ts.len() == 0 {
        Parsed::Panics
    } else if ts[0].kind != TokenKindV::Fn {
        Parsed::Error(recoverable())
    } else if ts.len() < 3 {
        Parsed::Panics
    } else {
        match expect(ts[2], TokenKindV::OpenParen) {
            Some(e) => Parsed::Error(e),
            None => {
                let rest = ts.skip(2);
                match find_matching(rest, TokenKindV::OpenParen, TokenKindV::CloseParen) {
                    Parsed::Val(_, end) => if 1 <= end < rest.len() {
                        match p_params(rest.subrange(1, end)) {
                            Params::Val(variadic, arguments) => {
                                let after = end + 3;
                                if after >= ts.len() {
                                    Parsed::Panics
                                } else if ts[after].kind == TokenKindV::Arrow {
                                    if after + 1 >= ts.len() {
                                        Parsed::Panics
                                    } else {
                                        match expect(
                                            ts[after + 1],
                                            TokenKindV::Ident(crate::text::bytes("u64")),
                                        ) {
                                            Some(e) => Parsed::Error(e),
                                            None => p_func_body(
                                                ts,
                                                after + 2,
                                                variadic,
                                                arguments,
                                                seq![u64_result(ts[after + 1].span)],
                                            ),
                                        }
                                    }
                                } else {
                                    p_func_body(ts, after, variadic, arguments, seq![])
                                }
                            },
                            Params::Error(e) => Parsed::Error(e),
                            Params::Panics => Parsed::Panics,
                        }
                    } else {
                        Parsed::Panics
                    },
                    Parsed::Error(e) => Parsed::Error(e),
                    Parsed::Panics => Parsed::Panics,
                }
            },
        }
    }
}

/// The body of a function whose header ends before position `at`.
pub open spec fn p_func_body(
    ts: Seq<TokenV>,
    at: int,
    variadic: bool,
    arguments: Seq<DeclarationV>,
    results: Seq<DeclarationV>,
) -> Parsed<AstV>
    decreases ts.len(), 1int,
{
    if 2 <= at <= ts.len() {
        match p_block(ts.skip(at)) {
            Parsed::Val(body, m) => match ident_of(ts[1]) {
                Err(e) => Parsed::Error(e),
                Ok(name) => Parsed::Val(
                    AstV::Func(
                        FuncV {
                            span: ts[0].span.spec_collapse(body.span),
                            ident: IdentV { span: ts[1].span, value: name },
                            arguments,
                            returns: results,
                            body,
                            variadic,
                        },
                    ),
                    at + m,
                ),
            },
            Parsed::Error(e) => Parsed::Error(e),
            Parsed::Panics => Parsed::Panics,
        }
    } else {
        Parsed::Panics
    }
}

/// The first of the statement forms that applies here.
pub open spec fn p_ast(ts: Seq<TokenV>) -> Parsed<AstV>
    decreases ts.len(), 3int,
{
    match p_func(ts) {
        Parsed::Error(e) if e.kind is Recoverable => match p_ret(ts) {
            Parsed::Error(e) if e.kind is Recoverable => match p_cond(ts, true) {
                Parsed::Error(e) if e.kind is Recoverable => match p_cond(ts, false) {
                    Parsed::Error(e) if e.kind is Recoverable => match p_lvalue(ts) {
                        Parsed::Error(e) if e.kind is Recoverable => match p_block_ast(ts) {
                            Parsed::Error(e) if e.kind is Recoverable => if ts.len() == 0 {
                                Parsed::Panics
                            } else {
                                Parsed::Error(
                                    ErrorOf {
                                        kind: ErrorKindOf::Expression { got: ts[0].kind },
                                        span: ts[0].span,
                                    },
                                )
                            },
                            other => other,
                        },
                        other => other,
                    },
                    other => other,
                },
                other => other,
            },
            other => other,
        },
        other => other,
    }
}

/// The statements of `ts`, after the ones in `acc`.
pub open spec fn p_stmts(ts: Seq<TokenV>, acc: Seq<AstV>) -> Parsed<Seq<AstV>>
    decreases ts.len(), 4int,
{
    if ts.len() == 0 {
        Parsed::Val(acc, 0)
    } else {
        match p_ast(ts) {
            Parsed::Val(a, n) => if 0 < n <= ts.len() {
                p_stmts(ts.skip(n), acc.push(a))
            } else {
                Parsed::Panics
            },
            Parsed::Error(e) => Parsed::Error(e),
            Parsed::Panics => Parsed::Panics,
        }
    }
}

/// The outcome of parsing a whole token sequence.
pub open spec fn spec_parse(ts: Seq<TokenV>) -> Parsed<Seq<AstV>> {
    p_stmts(ts, seq![])
}

/// Why a parse stopped without a value: an error to report, or an input on
/// which this parser gives up, one on which it would index past the end of
/// its tokens or meet a parameter whose type is not `u64`.
pub enum Stop {
    Error(Error),
    Panic,
}

/// The failure `s` matched by the outcome `p` of a parse that gave no value.
pub open spec fn stop_result<T>(p: Parsed<T>, s: Stop) -> bool {
    match p {
        Parsed::Val(_, _) => false,
        Parsed::Error(e) => s matches Stop::Error(x) && x@ == e,
        Parsed::Panics => s is Panic,
    }
}

/// The outcome `p` matched by the expression result `r`.
pub open spec fn expr_result(p: Parsed<ExprV>, r: Result<(Expr, usize), Stop>) -> bool {
    match p {
        Parsed::Val(v, n) => r matches Ok((x, m)) && expr_v(x) == v && m == n,
        _ => r matches Err(s) && stop_result(p, s),
    }
}

/// The outcome `p` matched by the statement result `r`.
pub open spec fn ast_result(p: Parsed<AstV>, r: Result<(Ast, usize), Stop>) -> bool {
    match p {
        Parsed::Val(v, n) => r matches Ok((x, m)) && ast_v(x) == v && m == n,
        _ => r matches Err(s) && stop_result(p, s),
    }
}

/// The outcome `p` matched by the block result `r`.
pub open spec fn block_result(p: Parsed<BlockV>, r: Result<(Block, usize), Stop>) -> bool {
    match p {
        Parsed::Val(v, n) => r matches Ok((x, m)) && block_v(x) == v && m == n,
        _ => r matches Err(s) && stop_result(p, s),
    }
}

/// The outcome `p` matched by the list of expressions `r`.
pub open spec fn exprs_result(p: Parsed<Seq<ExprV>>, r: Result<Vec<Expr>, Stop>) -> bool {
    match p {
        Parsed::Val(v, _) => r matches Ok(x) && exprs_v(x@) == v,
        _ => r matches Err(s) && stop_result(p, s),
    }
}

/// The outcome `p` matched by the list of statements `r`.
pub open spec fn asts_result(p: Parsed<Seq<AstV>>, r: Result<Vec<Ast>, Stop>) -> bool {
    match p {
        Parsed::Val(v, _) => r matches Ok(x) && asts_v(x@) == v,
        _ => r matches Err(s) && stop_result(p, s),
    }
}

proof fn lemma_view_range(ts: Seq<Token>, a: int, b: int)
    requires
        0 <= a <= b <= ts.len(),
    ensures
        tokens_view(ts.subrange(a, b)) == tokens_view(ts).subrange(a, b),
        tokens_view(ts).len() == ts.len(),
{
    assert(tokens_view(ts.subrange(a, b)) =~= tokens_view(ts).subrange(a, b));
}

impl BinOpKind {
    /// The number of rows of the precedence table.
    pub fn max_precedence() -> (r: usize)
        ensures
            r == spec_max_precedence(),
    {
        10
    }

    /// The row of the precedence table that holds this operator, counted
    /// from one.
    pub fn precedence(&self) -> (r: usize)
        ensures
            r == spec_precedence(*self),
    {
        match self {
            BinOpKind::Assign | BinOpKind::AddAssign | BinOpKind::SubAssign
            | BinOpKind::MulAssign | BinOpKind::DivAssign | BinOpKind::ModAssign
            | BinOpKind::BitAndAssign | BinOpKind::BitOrAssign | BinOpKind::XorAssign
            | BinOpKind::ShlAssign | BinOpKind::ShrAssign => 1,
            BinOpKind::Or => 2,
            BinOpKind::And => 3,
            BinOpKind::Gt | BinOpKind::Ge | BinOpKind::Lt | BinOpKind::Le | BinOpKind::Eq
            | BinOpKind::Ne => 4,
            BinOpKind::BitOr => 5,
            BinOpKind::Xor => 6,
            BinOpKind::BitAnd => 7,
            BinOpKind::Shr | BinOpKind::Shl => 8,
            BinOpKind::Add | BinOpKind::Sub => 9,
            BinOpKind::Mul | BinOpKind::Div | BinOpKind::Mod => 10,
        }
    }

    /// The binary operator that a token stands for.
    pub fn from_token(token: &TokenKind) -> (r: Option<BinOpKind>)
        ensures
            r == spec_from_token(token@),
    {
        match token {
            TokenKindOf::Plus => Some(BinOpKind::Add),
            TokenKindOf::Minus => Some(BinOpKind::Sub),
            TokenKindOf::Asterisk => Some(BinOpKind::Mul),
            TokenKindOf::Slash => Some(BinOpKind::Div),
            TokenKindOf::Mod => Some(BinOpKind::Mod),
            TokenKindOf::Eq => Some(BinOpKind::Eq),
            TokenKindOf::Ne => Some(BinOpKind::Ne),
            TokenKindOf::Gt => Some(BinOpKind::Gt),
            TokenKindOf::Ge => Some(BinOpKind::Ge),
            TokenKindOf::Lt => Some(BinOpKind::Lt),
            TokenKindOf::Le => Some(BinOpKind::Le),
            TokenKindOf::And => Some(BinOpKind::And),
            TokenKindOf::Or => Some(BinOpKind::Or),
            TokenKindOf::BitAnd => Some(BinOpKind::BitAnd),
            TokenKindOf::BitOr => Some(BinOpKind::BitOr),
            TokenKindOf::Xor => Some(BinOpKind::Xor),
            TokenKindOf::Shr => Some(BinOpKind::Shr),
            TokenKindOf::Shl => Some(BinOpKind::Shl),
            TokenKindOf::Equals => Some(BinOpKind::Assign),
            TokenKindOf::AddAssign => Some(BinOpKind::AddAssign),
            TokenKindOf::SubAssign => Some(BinOpKind::SubAssign),
            TokenKindOf::MulAssign => Some(BinOpKind::MulAssign),
            TokenKindOf::DivAssign => Some(BinOpKind::DivAssign),
            TokenKindOf::ModAssign => Some(BinOpKind::ModAssign),
            TokenKindOf::BitAndAssign => Some(BinOpKind::BitAndAssign),
            TokenKindOf::BitOrAssign => Some(BinOpKind::BitOrAssign),
            TokenKindOf::XorAssign => Some(BinOpKind::XorAssign),
            TokenKindOf::ShlAssign => Some(BinOpKind::ShlAssign),
            TokenKindOf::ShrAssign => Some(BinOpKind::ShrAssign),
            _ => None,
        }
    }
}

impl TokenOf<Vec<u8>> {
    /// Checks that the token has kind `kind`.
    fn is_kind(&self, kind: TokenKind) -> (r: Result<(), Stop>)
        ensures
            match expect(self@, kind@) {
                None => r is Ok,
                Some(e) => r matches Err(Stop::Error(x)) && x@ == e,
            },
    {
        if self.kind.same(&kind) {
            Ok(())
        } else {
            Err(
                Stop::Error(
                    ErrorOf {
                        span: self.span,
                        kind: ErrorKindOf::Expected { expected: kind, got: Some(self.kind.copy()) },
                    },
                ),
            )
        }
    }

    /// The text of an identifier token.
    fn ident(&self) -> (r: Result<Vec<u8>, Stop>)
        ensures
            match ident_of(self@) {
                Ok(s) => r matches Ok(x) && x@ == s,
                Err(e) => r matches Err(Stop::Error(x)) && x@ == e,
            },
    {
        match &self.kind {
            TokenKindOf::Ident(s) => Ok(copy_bytes(s)),
            _ => Err(
                Stop::Error(
                    ErrorOf {
                        span: self.span,
                        kind: ErrorKindOf::ExpectedIdent { got: self.kind.copy() },
                    },
                ),
            ),
        }
    }
}

/// The error that lets the next statement form be tried.
fn recoverable_stop() -> (r: Stop)
    ensures
        r matches Stop::Error(x) && x@ == recoverable(),
{
    Stop::Error(ErrorOf { kind: ErrorKindOf::Recoverable, span: Span { start: 0, end: 0 } })
}

/// The position of the token that closes the delimiter `tokens[0]` opens.
fn find_matching_exec(tokens: &[Token], open: TokenKind, close: TokenKind) -> (r: Result<
    usize,
    Stop,
>)
    requires
        tokens@.len() > 0,
    ensures
        match find_matching(tokens_view(tokens@), open@, close@) {
            Parsed::Val(_, i) => r matches Ok(x) && x == i,
            Parsed::Error(e) => r matches Err(Stop::Error(x)) && x@ == e,
            Parsed::Panics => false,
        },
{
    let ghost tv = tokens_view(tokens@);
    let mut opens: usize = 0;
    let mut closes: usize = 0;
    let mut i: usize = 0;
    while i < tokens.len()
        invariant
            tv == tokens_view(tokens@),
            tv.len() == tokens@.len(),
            0 <= i <= tokens@.len(),
            opens <= i,
            closes <= i,
            match_pos(tv, open@, close@, i as int, opens - closes) == match_pos(
                tv,
                open@,
                close@,
                0,
                0,
            ),
        decreases tokens@.len() - i,
    {
        if tokens[i].kind.same(&open) {
            opens += 1;
        } else if tokens[i].kind.same(&close) {
            closes += 1;
        }
        if opens == closes {
            return Ok(i);
        }
        i += 1;
    }
    Err(
        Stop::Error(
            ErrorOf {
                span: tokens[0].span,
                kind: ErrorKindOf::UnmatchedDelimiter { delimiter: tokens[0].kind.copy() },
            },
        ),
    )
}

/// The first position holding a token of kind `k`.
fn find_kind_exec(tokens: &[Token], k: TokenKind) -> (r: Option<usize>)
    ensures
        match find_kind(tokens_view(tokens@), k@, 0) {
            Some(i) => r == Some(i as usize) && 0 <= i < tokens@.len(),
            None => r is None,
        },
{
    let ghost tv = tokens_view(tokens@);
    let mut i: usize = 0;
    while i < tokens.len()
        invariant
            tv == tokens_view(tokens@),
            tv.len() == tokens@.len(),
            0 <= i <= tokens@.len(),
            find_kind(tv, k@, i as int) == find_kind(tv, k@, 0),
        decreases tokens@.len() - i,
    {
        if tokens[i].kind.same(&k) {
            return Some(i);
        }
        i += 1;
    }
    None
}

proof fn lemma_find_kind_range(ts: Seq<TokenV>, k: TokenKindV, i: int)
    ensures
        find_kind(ts, k, i) matches Some(j) ==> i <= j < ts.len() && 0 <= j,
    decreases ts.len() - i,
{
    if 0 <= i < ts.len() && ts[i].kind != k {
        lemma_find_kind_range(ts, k, i + 1);
    }
}

/// A primary expression.
fn expr(tokens: &[Token]) -> (r: Result<(Expr, usize), Stop>)
    ensures
        expr_result(p_expr(tokens_view(tokens@)), r),
        r matches Ok((_, m)) ==> m <= tokens@.len(),
    decreases tokens@.len(), 0int,
{
    let ghost tv = tokens_view(tokens@);
    proof {
        lemma_view_range(tokens@, 0, tokens@.len() as int);
    }
    if tokens.len() == 0 {
        return Err(Stop::Panic);
    }
    let tok = &tokens[0];
    match &tok.kind {
        TokenKindOf::Let => {
            if tokens.len() < 2 {
                return Err(Stop::Panic);
            }
            let name = tokens[1].ident()?;
            if tokens.len() < 3 {
                return Err(Stop::Panic);
            }
            tokens[2].is_kind(TokenKindOf::Equals)?;
            proof {
                lemma_view_range(tokens@, 3, tokens@.len() as int);
            }
            let (rhs, n) = bin_op(&tokens[3..tokens.len()], 0)?;
            let span = tok.span.collapse(rhs.span());
            let e = Expr::Declaration(
                Declaration {
                    span,
                    ident: Ident { span: tokens[1].span, value: name },
                    ty: Some(Type::new(TypeKind::U64)),
                    rhs: Some(Box::new(rhs)),
                },
            );
            Ok((e, n + 3))
        },
        TokenKindOf::Ident(name) => {
            if tokens.len() >= 2 && matches!(tokens[1].kind, TokenKindOf::OpenParen) {
                let rest = &tokens[1..tokens.len()];
                proof {
                    lemma_view_range(tokens@, 1, tokens@.len() as int);
                }
                let end = find_matching_exec(rest, TokenKindOf::OpenParen, TokenKindOf::CloseParen)?;
                if end < 1 || end >= rest.len() {
                    return Err(Stop::Panic);
                }
                proof {
                    lemma_view_range(rest@, 1, end as int);
                }
                let arguments = args(&rest[1..end])?;
                let span = tok.span.collapse(rest[end].span);
                let ghost av = exprs_v(arguments@);
                let e = Expr::Call(
                    Call { span, ident: Ident { span: tok.span, value: copy_bytes(name) }, arguments },
                );
                assert(expr_v(e) matches ExprV::Call(c) && c.arguments =~= av);
                Ok((e, end + 2))
            } else {
                Ok((Expr::Ident(Ident { span: tok.span, value: copy_bytes(name) }), 1))
            }
        },
        TokenKindOf::Integer(n) => {
            Ok((Expr::Literal(Literal { span: tok.span, kind: LiteralKind::Integer(*n) }), 1))
        },
        TokenKindOf::Str(s) => {
            Ok((Expr::Literal(Literal { span: tok.span, kind: LiteralKind::Str(copy_bytes(s)) }), 1))
        },
        TokenKindOf::Not => {
            proof {
                lemma_view_range(tokens@, 1, tokens@.len() as int);
            }
            let (inner, n) = expr(&tokens[1..tokens.len()])?;
            let span = tok.span.collapse(inner.span());
            Ok((Expr::UnaryOp(UnaryOp { span, kind: UnaryOpKind::Not, expr: Box::new(inner) }), n + 1))
        },
        TokenKindOf::OpenParen => {
            proof {
                lemma_view_range(tokens@, 1, tokens@.len() as int);
            }
            let (inner, n) = bin_op(&tokens[1..tokens.len()], 0)?;
            if n + 1 >= tokens.len() {
                return Err(Stop::Panic);
            }
            tokens[n + 1].is_kind(TokenKindOf::CloseParen)?;
            Ok((inner, n + 2))
        },
        _ => Err(
            Stop::Error(
                ErrorOf { kind: ErrorKindOf::Expression { got: tok.kind.copy() }, span: tok.span },
            ),
        ),
    }
}

/// An expression whose operators all bind at least as tightly as row `prec`
/// of the precedence table.
fn bin_op(tokens: &[Token], prec: usize) -> (r: Result<(Expr, usize), Stop>)
    requires
        prec <= 11,
    ensures
        expr_result(p_bin_op(tokens_view(tokens@), prec as nat), r),
        r matches Ok((_, m)) ==> m <= tokens@.len(),
    decreases tokens@.len(), bin_rank(prec as nat),
{
    let ghost tv = tokens_view(tokens@);
    proof {
        lemma_view_range(tokens@, 0, tokens@.len() as int);
    }
    if prec > BinOpKind::max_precedence() {
        return expr(tokens);
    }
    let (first, n) = bin_op(tokens, prec + 1)?;
    if n == 0 {
        return Err(Stop::Panic);
    }
    let mut lhs = first;
    let mut pos = n;
    loop
        invariant
            prec <= 10,
            tv == tokens_view(tokens@),
            tv.len() == tokens@.len(),
            0 < pos <= tokens@.len(),
            p_bin_op(tv, prec as nat) == shifted(p_bin_loop(tv.skip(pos as int), expr_v(lhs), prec as nat), pos as int),
        decreases tokens@.len() - pos,
    {
        proof {
            lemma_view_range(tokens@, pos as int, tokens@.len() as int);
        }
        if pos < tokens.len() {
            if let Some(op) = BinOpKind::from_token(&tokens[pos].kind) {
                if op.precedence() == prec {
                    proof {
                        lemma_view_range(tokens@, pos + 1, tokens@.len() as int);
                        assert(tv.skip(pos as int).skip(1) =~= tv.skip(pos + 1));
                    }
                    let (rhs, m) = bin_op(&tokens[pos + 1..tokens.len()], prec + 1)?;
                    let span = lhs.span().collapse(rhs.span());
                    lhs = Expr::BinOp(BinOp { span, kind: op, lhs: Box::new(lhs), rhs: Box::new(rhs) });
                    proof {
                        assert(tv.skip(pos as int).skip(m + 1) =~= tv.skip(pos + m + 1));
                    }
                    pos = pos + 1 + m;
                    continue;
                }
            }
        }
        return Ok((lhs, pos));
    }
}

/// The arguments of a call.
fn args(tokens: &[Token]) -> (r: Result<Vec<Expr>, Stop>)
    ensures
        exprs_result(p_args(tokens_view(tokens@)), r),
    decreases tokens@.len(), 14int,
{
    if tokens.len() == 0 {
        let v: Vec<Expr> = Vec::new();
        assert(exprs_v(v@) =~= seq![]);
        return Ok(v);
    }
    split_args(tokens)
}

/// The comma-separated expressions of a non-empty argument list.
fn split_args(tokens: &[Token]) -> (r: Result<Vec<Expr>, Stop>)
    ensures
        exprs_result(p_split(tokens_view(tokens@), seq![]), r),
    decreases tokens@.len(), 13int,
{
    let ghost tv = tokens_view(tokens@);
    proof {
        lemma_view_range(tokens@, 0, tokens@.len() as int);
    }
    let mut acc: Vec<Expr> = Vec::new();
    let mut start: usize = 0;
    assert(exprs_v(acc@) =~= seq![]);
    assert(tv.skip(0) =~= tv);
    loop
        invariant
            tv == tokens_view(tokens@),
            tv.len() == tokens@.len(),
            0 <= start <= tokens@.len(),
            p_split(tv.skip(start as int), exprs_v(acc@)) == p_split(tv, seq![]),
        decreases tokens@.len() - start,
    {
        let rest = &tokens[start..tokens.len()];
        proof {
            lemma_view_range(tokens@, start as int, tokens@.len() as int);
            lemma_find_kind_range(tv.skip(start as int), TokenKindV::Comma, 0);
        }
        let c = find_kind_exec(rest, TokenKindOf::Comma);
        let piece = match c {
            Some(c) => &rest[0..c],
            None => rest,
        };
        proof {
            if let Some(c) = c {
                lemma_view_range(rest@, 0, c as int);
            }
        }
        let (e, _) = bin_op(piece, 0)?;
        let ghost old_acc = exprs_v(acc@);
        acc.push(e);
        assert(exprs_v(acc@) =~= old_acc.push(expr_v(e)));
        match c {
            None => {
                return Ok(acc);
            },
            Some(c) => {
                proof {
                    assert(tv.skip(start as int).skip(c + 1) =~= tv.skip(start + c + 1));
                }
                start = start + c + 1;
            },
        }
    }
}

/// A `return` statement.
fn ret(tokens: &[Token]) -> (r: Result<(Ast, usize), Stop>)
    ensures
        ast_result(p_ret(tokens_view(tokens@)), r),
        r matches Ok((_, m)) ==> m <= tokens@.len(),
{
    let ghost tv = tokens_view(tokens@);
    proof {
        lemma_view_range(tokens@, 0, tokens@.len() as int);
    }
    if tokens.len() == 0 {
        return Err(Stop::Panic);
    }
    let token = &tokens[0];
    if !matches!(token.kind, TokenKindOf::Return) {
        return Err(recoverable_stop());
    }
    if tokens.len() < 2 {
        return Err(Stop::Panic);
    }
    if matches!(tokens[1].kind, TokenKindOf::Semi) {
        return Ok((Ast::Return(Return { span: token.span, expr: None }), 2));
    }
    proof {
        lemma_view_range(tokens@, 1, tokens@.len() as int);
    }
    let (e, n) = bin_op(&tokens[1..tokens.len()], 0)?;
    if n + 1 >= tokens.len() {
        return Err(Stop::Panic);
    }
    tokens[n + 1].is_kind(TokenKindOf::Semi)?;
    let span = token.span.collapse(e.span());
    Ok((Ast::Return(Return { span, expr: Some(e) }), n + 2))
}

/// An expression statement.
fn lvalue(tokens: &[Token]) -> (r: Result<(Ast, usize), Stop>)
    ensures
        ast_result(p_lvalue(tokens_view(tokens@)), r),
        r matches Ok((_, m)) ==> m <= tokens@.len(),
{
    proof {
        lemma_view_range(tokens@, 0, tokens@.len() as int);
    }
    let (e, n) = bin_op(tokens, 0)?;
    if n >= tokens.len() {
        return Err(Stop::Panic);
    }
    tokens[n].is_kind(TokenKindOf::Semi)?;
    Ok((Ast::Expr(e), n + 1))
}

/// The statements between a `{` and its matching `}`.
fn block_body(tokens: &[Token]) -> (r: Result<(Block, usize), Stop>)
    requires
        tokens@.len() > 0,
    ensures
        block_result(p_block_body(tokens_view(tokens@)), r),
        r matches Ok((_, m)) ==> m <= tokens@.len(),
    decreases tokens@.len(), 0int,
{
    proof {
        lemma_view_range(tokens@, 0, tokens@.len() as int);
    }
    let end = find_matching_exec(tokens, TokenKindOf::OpenCurly, TokenKindOf::CloseCurly)?;
    if end < 1 || end >= tokens.len() {
        return Err(Stop::Panic);
    }
    proof {
        lemma_view_range(tokens@, 1, end as int);
    }
    let statements = stmts(&tokens[1..end])?;
    let span = tokens[0].span.collapse(tokens[end].span);
    let ghost sv = asts_v(statements@);
    let b = Block { span, statements };
    assert(block_v(b).statements =~= sv);
    Ok((b, end + 1))
}

/// A block.
fn block(tokens: &[Token]) -> (r: Result<(Block, usize), Stop>)
    ensures
        block_result(p_block(tokens_view(tokens@)), r),
        r matches Ok((_, m)) ==> m <= tokens@.len(),
    decreases tokens@.len(), 1int,
{
    proof {
        lemma_view_range(tokens@, 0, tokens@.len() as int);
    }
    if tokens.len() == 0 {
        return Err(Stop::Panic);
    }
    tokens[0].is_kind(TokenKindOf::OpenCurly)?;
    block_body(tokens)
}

/// A block used as a statement.
fn block_ast(tokens: &[Token]) -> (r: Result<(Ast, usize), Stop>)
    ensures
        ast_result(p_block_ast(tokens_view(tokens@)), r),
        r matches Ok((_, m)) ==> m <= tokens@.len(),
    decreases tokens@.len(), 1int,
{
    proof {
        lemma_view_range(tokens@, 0, tokens@.len() as int);
    }
    if tokens.len() == 0 {
        return Err(Stop::Panic);
    }
    if !matches!(tokens[0].kind, TokenKindOf::OpenCurly) {
        return Err(recoverable_stop());
    }
    let (b, n) = block_body(tokens)?;
    Ok((Ast::Block(b), n))
}

/// `if` or `while`, by `is_if`.
fn cond(tokens: &[Token], is_if: bool) -> (r: Result<(Ast, usize), Stop>)
    ensures
        ast_result(p_cond(tokens_view(tokens@), is_if), r),
        r matches Ok((_, m)) ==> m <= tokens@.len(),
    decreases tokens@.len(), 2int,
{
    proof {
        lemma_view_range(tokens@, 0, tokens@.len() as int);
    }
    if tokens.len() == 0 {
        return Err(Stop::Panic);
    }
    let token = &tokens[0];
    let keyword = if is_if {
        matches!(token.kind, TokenKindOf::If)
    } else {
        matches!(token.kind, TokenKindOf::While)
    };
    if !keyword {
        return Err(recoverable_stop());
    }
    proof {
        lemma_view_range(tokens@, 1, tokens@.len() as int);
    }
    let (condition, n) = bin_op(&tokens[1..tokens.len()], 0)?;
    proof {
        lemma_view_range(tokens@, n + 1, tokens@.len() as int);
    }
    let (body, m) = block(&tokens[n + 1..tokens.len()])?;
    let span = token.span.collapse(body.span);
    if is_if {
        Ok((Ast::If(If { span, condition, body }), n + 1 + m))
    } else {
        Ok((Ast::While(While { span, condition, body }), n + 1 + m))
    }
}

/// An `if` statement.
fn iff(tokens: &[Token]) -> (r: Result<(Ast, usize), Stop>)
    ensures
        ast_result(p_cond(tokens_view(tokens@), true), r),
        r matches Ok((_, m)) ==> m <= tokens@.len(),
    decreases tokens@.len(), 3int,
{
    cond(tokens, true)
}

/// A `while` statement.
fn whilee(tokens: &[Token]) -> (r: Result<(Ast, usize), Stop>)
    ensures
        ast_result(p_cond(tokens_view(tokens@), false), r),
        r matches Ok((_, m)) ==> m <= tokens@.len(),
    decreases tokens@.len(), 3int,
{
    cond(tokens, false)
}

/// One parameter.
fn param(p: &[Token], start: Span) -> (r: Result<Declaration, Stop>)
    ensures
        match p_param(tokens_view(p@), start) {
            Ok(d) => if param_type_ok(tokens_view(p@)) {
                r matches Ok(x) && crate::ast::decl_v(x) == d
            } else {
                r matches Err(Stop::Panic)
            },
            Err(e) => r matches Err(Stop::Error(x)) && x@ == e,
        },
{
    proof {
        lemma_view_range(p@, 0, p@.len() as int);
    }
    if p.len() != 3 {
        return Err(
            Stop::Error(ErrorOf { kind: ErrorKindOf::Declaraction { kind: "parameter" }, span: start }),
        );
    }
    let name = p[0].ident()?;
    p[1].is_kind(TokenKindOf::Colon)?;
    let ty = p[2].ident()?;
    let u64_name = copy_bytes_of("u64");
    if !bytes_eq(&ty, &u64_name) {
        return Err(Stop::Panic);
    }
    Ok(
        Declaration {
            span: p[0].span.collapse(p[2].span),
            ident: Ident { span: p[0].span, value: name },
            ty: Some(Type::new(TypeKind::U64)),
            rhs: None,
        },
    )
}

/// A parameter list: whether it ends in `...`, and the parameters.
fn params(tokens: &[Token]) -> (r: Result<(bool, Vec<Declaration>), Stop>)
    ensures
        match p_params(tokens_view(tokens@)) {
            Params::Val(var, ds) => r matches Ok((v, x)) && v == var && decls_v(x@) == ds,
            Params::Error(e) => r matches Err(Stop::Error(x)) && x@ == e,
            Params::Panics => r matches Err(Stop::Panic),
        },
{
    let ghost tv = tokens_view(tokens@);
    proof {
        lemma_view_range(tokens@, 0, tokens@.len() as int);
    }
    let mut args: Vec<Declaration> = Vec::new();
    if tokens.len() == 0 {
        assert(decls_v(args@) =~= seq![]);
        return Ok((false, args));
    }
    let start_span = tokens[0].span;
    let mut variadic = false;
    let mut start: usize = 0;
    assert(decls_v(args@) =~= seq![]);
    assert(tv.skip(0) =~= tv);
    loop
        invariant
            tv == tokens_view(tokens@),
            tv.len() == tokens@.len(),
            tokens@.len() > 0,
            start_span == tv[0].span,
            0 <= start <= tokens@.len(),
            p_params_from(tv.skip(start as int), start_span, variadic, decls_v(args@))
                == p_params(tv),
        decreases tokens@.len() - start,
    {
        let rest = &tokens[start..tokens.len()];
        proof {
            lemma_view_range(tokens@, start as int, tokens@.len() as int);
            lemma_find_kind_range(tv.skip(start as int), TokenKindV::Comma, 0);
        }
        let c = find_kind_exec(rest, TokenKindOf::Comma);
        let piece = match c {
            Some(c) => &rest[0..c],
            None => rest,
        };
        proof {
            if let Some(c) = c {
                lemma_view_range(rest@, 0, c as int);
            }
        }
        if piece.len() == 1 && matches!(piece[0].kind, TokenKindOf::Variadic) {
            variadic = true;
        } else {
            let d = param(piece, start_span)?;
            let ghost old_args = decls_v(args@);
            args.push(d);
            assert(decls_v(args@) =~= old_args.push(crate::ast::decl_v(d)));
        }
        match c {
            None => {
                return Ok((variadic, args));
            },
            Some(c) => {
                proof {
                    assert(tv.skip(start as int).skip(c + 1) =~= tv.skip(start + c + 1));
                }
                start = start + c + 1;
            },
        }
    }
}

/// A function definition.
fn func(tokens: &[Token]) -> (r: Result<(Ast, usize), Stop>)
    ensures
        ast_result(p_func(tokens_view(tokens@)), r),
        r matches Ok((_, m)) ==> m <= tokens@.len(),
    decreases tokens@.len(), 2int,
{
    let ghost tv = tokens_view(tokens@);
    proof {
        lemma_view_range(tokens@, 0, tokens@.len() as int);
    }
    if tokens.len() == 0 {
        return Err(Stop::Panic);
    }
    let token = &tokens[0];
    if !matches!(token.kind, TokenKindOf::Fn) {
        return Err(recoverable_stop());
    }
    if tokens.len() < 3 {
        return Err(Stop::Panic);
    }
    let ident = &tokens[1];
    tokens[2].is_kind(TokenKindOf::OpenParen)?;
    let rest = &tokens[2..tokens.len()];
    proof {
        lemma_view_range(tokens@, 2, tokens@.len() as int);
    }
    let end_args = find_matching_exec(rest, TokenKindOf::OpenParen, TokenKindOf::CloseParen)?;
    if end_args < 1 || end_args >= rest.len() {
        return Err(Stop::Panic);
    }
    proof {
        lemma_view_range(rest@, 1, end_args as int);
    }
    let (variadic, arguments) = params(&rest[1..end_args])?;
    let mut at = end_args + 3;
    if at >= tokens.len() {
        return Err(Stop::Panic);
    }
    let mut results: Vec<Declaration> = Vec::new();
    assert(decls_v(results@) =~= seq![]);
    if matches!(tokens[at].kind, TokenKindOf::Arrow) {
        if at + 1 >= tokens.len() {
            return Err(Stop::Panic);
        }
        tokens[at + 1].is_kind(TokenKindOf::Ident(copy_bytes_of("u64")))?;
        results.push(
            Declaration {
                span: tokens[at + 1].span,
                ident: Ident { span: Span { start: 0, end: 0 }, value: Vec::new() },
                ty: Some(Type::new(TypeKind::U64)),
                rhs: None,
            },
        );
        assert(decls_v(results@) =~= seq![u64_result(tv[at + 1].span)]);
        at = at + 2;
    }
    proof {
        lemma_view_range(tokens@, at as int, tokens@.len() as int);
    }
    let (body, m) = block(&tokens[at..tokens.len()])?;
    let name = ident.ident()?;
    let span = token.span.collapse(body.span);
    let f = Func {
        span,
        ident: Ident { span: ident.span, value: name },
        arguments,
        returns: results,
        body,
        variadic,
    };
    Ok((Ast::Func(f), at + m))
}

/// The bytes of a string as a vector.
fn copy_bytes_of(s: &str) -> (r: Vec<u8>)
    ensures
        r@ == crate::text::bytes(s),
{
    let b = s.as_bytes();
    let r = crate::text::copy_range(b, 0, b.len());
    assert(b@.subrange(0, b@.len() as int) =~= b@);
    r
}

/// The first statement form that applies at the start of `tokens`.
fn ast(tokens: &[Token]) -> (r: Result<(Ast, usize), Stop>)
    ensures
        ast_result(p_ast(tokens_view(tokens@)), r),
        r matches Ok((_, m)) ==> m <= tokens@.len(),
    decreases tokens@.len(), 4int,
{
    match func(tokens) {
        Err(Stop::Error(e)) => if !matches!(e.kind, ErrorKindOf::Recoverable) {
            return Err(Stop::Error(e));
        },
        other => {
            return other;
        },
    }
    match ret(tokens) {
        Err(Stop::Error(e)) => if !matches!(e.kind, ErrorKindOf::Recoverable) {
            return Err(Stop::Error(e));
        },
        other => {
            return other;
        },
    }
    match iff(tokens) {
        Err(Stop::Error(e)) => if !matches!(e.kind, ErrorKindOf::Recoverable) {
            return Err(Stop::Error(e));
        },
        other => {
            return other;
        },
    }
    match whilee(tokens) {
        Err(Stop::Error(e)) => if !matches!(e.kind, ErrorKindOf::Recoverable) {
            return Err(Stop::Error(e));
        },
        other => {
            return other;
        },
    }
    match lvalue(tokens) {
        Err(Stop::Error(e)) => if !matches!(e.kind, ErrorKindOf::Recoverable) {
            return Err(Stop::Error(e));
        },
        other => {
            return other;
        },
    }
    match block_ast(tokens) {
        Err(Stop::Error(e)) => if !matches!(e.kind, ErrorKindOf::Recoverable) {
            return Err(Stop::Error(e));
        },
        other => {
            return other;
        },
    }
    if tokens.len() == 0 {
        return Err(Stop::Panic);
    }
    Err(
        Stop::Error(
            ErrorOf {
                kind: ErrorKindOf::Expression { got: tokens[0].kind.copy() },
                span: tokens[0].span,
            },
        ),
    )
}

/// The statements of `tokens`, up to its end.
fn stmts(tokens: &[Token]) -> (r: Result<Vec<Ast>, Stop>)
    ensures
        asts_result(p_stmts(tokens_view(tokens@), seq![]), r),
    decreases tokens@.len(), 5int,
{
    let ghost tv = tokens_view(tokens@);
    proof {
        lemma_view_range(tokens@, 0, tokens@.len() as int);
    }
    let mut acc: Vec<Ast> = Vec::new();
    let mut pos: usize = 0;
    assert(asts_v(acc@) =~= seq![]);
    assert(tv.skip(0) =~= tv);
    loop
        invariant
            tv == tokens_view(tokens@),
            tv.len() == tokens@.len(),
            0 <= pos <= tokens@.len(),
            p_stmts(tv.skip(pos as int), asts_v(acc@)) == p_stmts(tv, seq![]),
        decreases tokens@.len() - pos,
    {
        if pos >= tokens.len() {
            return Ok(acc);
        }
        proof {
            lemma_view_range(tokens@, pos as int, tokens@.len() as int);
        }
        let (a, n) = ast(&tokens[pos..tokens.len()])?;
        if n == 0 {
            return Err(Stop::Panic);
        }
        let ghost old_acc = asts_v(acc@);
        acc.push(a);
        assert(asts_v(acc@) =~= old_acc.push(ast_v(a)));
        proof {
            assert(tv.skip(pos as int).skip(n as int) =~= tv.skip(pos + n));
        }
        pos = pos + n;
    }
}

/// Parses a whole token sequence into statements; `None` on the inputs on
/// which the parser gives up (see [`Stop::Panic`]).
pub fn try_parse(tokens: &[Token]) -> (r: Option<Result<Vec<Ast>, Error>>)
    ensures
        match spec_parse(tokens_view(tokens@)) {
            Parsed::Val(v, _) => r matches Some(Ok(x)) && asts_v(x@) == v,
            Parsed::Error(e) => r matches Some(Err(x)) && x@ == e,
            Parsed::Panics => r is None,
        },
{
    match stmts(tokens) {
        Ok(v) => Some(Ok(v)),
        Err(Stop::Error(e)) => Some(Err(e)),
        Err(Stop::Panic) => None,
    }
}

/// Parses a whole token sequence into statements.
pub fn parse(tokens: &[Token]) -> (r: Result<Vec<Ast>, Error>)
    requires
        !(spec_parse(tokens_view(tokens@)) is Panics),
    ensures
        match spec_parse(tokens_view(tokens@)) {
            Parsed::Val(v, _) => r matches Ok(x) && asts_v(x@) == v,
            Parsed::Error(e) => r matches Err(x) && x@ == e,
            Parsed::Panics => false,
        },
{
    match try_parse(tokens) {
        Some(r) => r,
        None => Ok(Vec::new()),
    }
}

} // verus!
