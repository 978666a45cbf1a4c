//! The parser of the current front end: recursive descent over the tokens
//! of a source file into a syntax tree, with precedence climbing for binary
//! operators. A construct either is read, stops parsing with an error, or
//! does not start at the current token, which lets the next one be tried.
use crate::stage::tokenize::{table_entry, tokens_view, Span, Token, TokenKind, TokenKindOf, TokenV, TABLE_LEN};
use crate::text::{bytes, bytes_eq, copy_bytes, string_bytes};
use crate::tree::{BinOp, Literal, LiteralOf, LiteralV, Type};
use vstd::prelude::*;

verus! {

/// How parsing a construct failed: for good, or in a way that lets another
/// construct be tried from the same place.
#[derive(Debug)]
pub enum Error {
    Cut(crate::error::Error),
    Recoverable(Span),
}

impl Error {
    /// The error to report: a recoverable error that reaches the top is a
    /// fault of the parser.
    pub fn into_reportable_error(self) -> (r: crate::error::Error)
        ensures
            r == match self {
                Error::Cut(e) => e,
                Error::Recoverable(span) => crate::error::Error {
                    span,
                    kind: crate::error::ErrorKind::Custom("Recoverable error ignored, this is a bug!"),
                },
            },
    {
        match self {
            Error::Cut(cut) => cut,
            Error::Recoverable(span) => span.custom("Recoverable error ignored, this is a bug!"),
        }
    }
}

/// The binding strength of an operator, from 1 for assignments to 10 for
/// multiplication; a higher one binds tighter.
pub open spec fn spec_precedence(op: BinOp) -> nat {
    match op {
        BinOp::Or => 2,
        BinOp::And => 3,
        BinOp::Gt | BinOp::Ge | BinOp::Lt | BinOp::Le | BinOp::Eq | BinOp::Ne => 4,
        BinOp::BitOr => 5,
        BinOp::Xor => 6,
        BinOp::BitAnd => 7,
        BinOp::Shr | BinOp::Shl => 8,
        BinOp::Add | BinOp::Sub => 9,
        BinOp::Mul | BinOp::Div | BinOp::Mod => 10,
        _ => 1,
    }
}

impl BinOp {
    /// The number of precedence levels.
    pub fn max_precedence() -> (r: usize)
        ensures
            r == 10,
    {
        10
    }

    /// The precedence level of the operator.
    pub fn precedence(&self) -> (r: usize)
        ensures
            r == spec_precedence(*self),
            1 <= r <= 10,
    {
        match self {
            BinOp::Or => 2,
            BinOp::And => 3,
            BinOp::Gt | BinOp::Ge | BinOp::Lt | BinOp::Le | BinOp::Eq | BinOp::Ne => 4,
            BinOp::BitOr => 5,
            BinOp::Xor => 6,
            BinOp::BitAnd => 7,
            BinOp::Shr | BinOp::Shl => 8,
            BinOp::Add | BinOp::Sub => 9,
            BinOp::Mul | BinOp::Div | BinOp::Mod => 10,
            _ => 1,
        }
    }

    /// The operator a token stands for, if any.
    pub open spec fn spec_from_token(token: TokenKindOf<Seq<u8>>) -> Option<BinOp> {
        match token {
            TokenKindOf::Plus => Some(BinOp::Add),
            TokenKindOf::Minus => Some(BinOp::Sub),
            TokenKindOf::Asterisk => Some(BinOp::Mul),
            TokenKindOf::Slash => Some(BinOp::Div),
            TokenKindOf::Mod => Some(BinOp::Mod),
            TokenKindOf::Eq => Some(BinOp::Eq),
            TokenKindOf::Ne => Some(BinOp::Ne),
            TokenKindOf::Gt => Some(BinOp::Gt),
            TokenKindOf::Ge => Some(BinOp::Ge),
            TokenKindOf::Lt => Some(BinOp::Lt),
            TokenKindOf::Le => Some(BinOp::Le),
            TokenKindOf::And => Some(BinOp::And),
            TokenKindOf::Or => Some(BinOp::Or),
            TokenKindOf::BitAnd => Some(BinOp::BitAnd),
            TokenKindOf::BitOr => Some(BinOp::BitOr),
            TokenKindOf::Xor => Some(BinOp::Xor),
            TokenKindOf::Shr => Some(BinOp::Shr),
            TokenKindOf::Shl => Some(BinOp::Shl),
            TokenKindOf::Equals => Some(BinOp::Assign),
            TokenKindOf::AddAssign => Some(BinOp::AddAssign),
            TokenKindOf::SubAssign => Some(BinOp::SubAssign),
            TokenKindOf::MulAssign => Some(BinOp::MulAssign),
            TokenKindOf::DivAssign => Some(BinOp::DivAssign),
            TokenKindOf::ModAssign => Some(BinOp::ModAssign),
            TokenKindOf::BitAndAssign => Some(BinOp::BitAndAssign),
            TokenKindOf::BitOrAssign => Some(BinOp::BitOrAssign),
            TokenKindOf::XorAssign => Some(BinOp::XorAssign),
            TokenKindOf::ShlAssign => Some(BinOp::ShlAssign),
            TokenKindOf::ShrAssign => Some(BinOp::ShrAssign),
            _ => None,
        }
    }

    /// The operator a token stands for, if any.
    pub fn from_token(token: &TokenKind) -> (r: Option<BinOp>)
        ensures
            r == Self::spec_from_token(token@),
    {
        match token {
            TokenKindOf::Plus => Some(BinOp::Add),
            TokenKindOf::Minus => Some(BinOp::Sub),
            TokenKindOf::Asterisk => Some(BinOp::Mul),
            TokenKindOf::Slash => Some(BinOp::Div),
            TokenKindOf::Mod => Some(BinOp::Mod),
            TokenKindOf::Eq => Some(BinOp::Eq),
            TokenKindOf::Ne => Some(BinOp::Ne),
            TokenKindOf::Gt => Some(BinOp::Gt),
            TokenKindOf::Ge => Some(BinOp::Ge),
            TokenKindOf::Lt => Some(BinOp::Lt),
            TokenKindOf::Le => Some(BinOp::Le),
            TokenKindOf::And => Some(BinOp::And),
            TokenKindOf::Or => Some(BinOp::Or),
            TokenKindOf::BitAnd => Some(BinOp::BitAnd),
            TokenKindOf::BitOr => Some(BinOp::BitOr),
            TokenKindOf::Xor => Some(BinOp::Xor),
            TokenKindOf::Shr => Some(BinOp::Shr),
            TokenKindOf::Shl => Some(BinOp::Shl),
            TokenKindOf::Equals => Some(BinOp::Assign),
            TokenKindOf::AddAssign => Some(BinOp::AddAssign),
            TokenKindOf::SubAssign => Some(BinOp::SubAssign),
            TokenKindOf::MulAssign => Some(BinOp::MulAssign),
            TokenKindOf::DivAssign => Some(BinOp::DivAssign),
            TokenKindOf::ModAssign => Some(BinOp::ModAssign),
            TokenKindOf::BitAndAssign => Some(BinOp::BitAndAssign),
            TokenKindOf::BitOrAssign => Some(BinOp::BitOrAssign),
            TokenKindOf::XorAssign => Some(BinOp::XorAssign),
            TokenKindOf::ShlAssign => Some(BinOp::ShlAssign),
            TokenKindOf::ShrAssign => Some(BinOp::ShrAssign),
            _ => None,
        }
    }
}

/// Every operator a token stands for has a precedence level in range, and
/// each token stands for a different operator: an operator is written
/// one way.
pub proof fn law_operator_tokens(a: TokenKindOf<Seq<u8>>, b: TokenKindOf<Seq<u8>>)
    ensures
        BinOp::spec_from_token(a) matches Some(op) ==> 1 <= spec_precedence(op) <= 10,
        BinOp::spec_from_token(a) is Some && BinOp::spec_from_token(a) == BinOp::spec_from_token(b)
            ==> a == b,
{
}

/// Operators bind as in Rust, from loosest to tightest: the assignments,
/// `||`, `&&`, the comparisons, `|`, `^`, `&`, the shifts, `+` and `-`, and
/// `*`, `/` and `%`; the operators of one group bind alike. So `a | b & c`
/// is `a | (b & c)`, and `a ^ b | c` is `(a ^ b) | c`.
pub proof fn law_precedence_order()
    ensures
        spec_precedence(BinOp::Assign) < spec_precedence(BinOp::Or),
        spec_precedence(BinOp::Or) < spec_precedence(BinOp::And),
        spec_precedence(BinOp::And) < spec_precedence(BinOp::Eq),
        spec_precedence(BinOp::Eq) < spec_precedence(BinOp::BitOr),
        spec_precedence(BinOp::BitOr) < spec_precedence(BinOp::Xor),
        spec_precedence(BinOp::Xor) < spec_precedence(BinOp::BitAnd),
        spec_precedence(BinOp::BitAnd) < spec_precedence(BinOp::Shl),
        spec_precedence(BinOp::Shl) < spec_precedence(BinOp::Add),
        spec_precedence(BinOp::Add) < spec_precedence(BinOp::Mul),
        forall|op: BinOp| op.is_assignment() ==> spec_precedence(op) == spec_precedence(BinOp::Assign),
        spec_precedence(BinOp::Ne) == spec_precedence(BinOp::Eq),
        spec_precedence(BinOp::Gt) == spec_precedence(BinOp::Eq),
        spec_precedence(BinOp::Ge) == spec_precedence(BinOp::Eq),
        spec_precedence(BinOp::Lt) == spec_precedence(BinOp::Eq),
        spec_precedence(BinOp::Le) == spec_precedence(BinOp::Eq),
        spec_precedence(BinOp::Shr) == spec_precedence(BinOp::Shl),
        spec_precedence(BinOp::Sub) == spec_precedence(BinOp::Add),
        spec_precedence(BinOp::Div) == spec_precedence(BinOp::Mul),
        spec_precedence(BinOp::Mod) == spec_precedence(BinOp::Mul),
{
}

/// Every operator token is lexed from the text of the operator it stands
/// for: a plain operator from its symbol, and a compound assignment from
/// the symbol of the operator it applies followed by `=`. So `>=` is read
/// as `Ge` and `<=` as `Le`, `-=` as the assignment that subtracts.
pub proof fn law_operator_token_texts(e: int)
    requires
        0 <= e < TABLE_LEN,
    ensures
        BinOp::spec_from_token(table_entry(e).0) matches Some(op) ==> if op.is_compound() {
            table_entry(e).1@ == op.plain_of().symbol()@ + "="@
        } else {
            table_entry(e).1@ == op.symbol()@
        },
{
    if e == 15 {
        reveal_strlit("+=");
        reveal_strlit("+");
        reveal_strlit("=");
        assert("+="@ =~= "+"@ + "="@);
    } else if e == 16 {
        reveal_strlit("-=");
        reveal_strlit("-");
        reveal_strlit("=");
        assert("-="@ =~= "-"@ + "="@);
    } else if e == 17 {
        reveal_strlit("*=");
        reveal_strlit("*");
        reveal_strlit("=");
        assert("*="@ =~= "*"@ + "="@);
    } else if e == 18 {
        reveal_strlit("/=");
        reveal_strlit("/");
        reveal_strlit("=");
        assert("/="@ =~= "/"@ + "="@);
    } else if e == 19 {
        reveal_strlit("%=");
        reveal_strlit("%");
        reveal_strlit("=");
        assert("%="@ =~= "%"@ + "="@);
    } else if e == 20 {
        reveal_strlit("&=");
        reveal_strlit("&");
        reveal_strlit("=");
        assert("&="@ =~= "&"@ + "="@);
    } else if e == 21 {
        reveal_strlit("|=");
        reveal_strlit("|");
        reveal_strlit("=");
        assert("|="@ =~= "|"@ + "="@);
    } else if e == 22 {
        reveal_strlit("^=");
        reveal_strlit("^");
        reveal_strlit("=");
        assert("^="@ =~= "^"@ + "="@);
    } else if e == 23 {
        reveal_strlit("<<=");
        reveal_strlit("<<");
        reveal_strlit("=");
        assert("<<="@ =~= "<<"@ + "="@);
    } else if e == 24 {
        reveal_strlit(">>=");
        reveal_strlit(">>");
        reveal_strlit("=");
        assert(">>="@ =~= ">>"@ + "="@);
    }
}

/// The type a name stands for, if any.
pub open spec fn spec_type_named(name: Seq<u8>) -> Option<Type> {
    if name == bytes("u8") {
        Some(Type::U8)
    } else if name == bytes("u16") {
        Some(Type::U16)
    } else if name == bytes("u32") {
        Some(Type::U32)
    } else if name == bytes("u64") {
        Some(Type::U64)
    } else if name == bytes("i8") {
        Some(Type::I8)
    } else if name == bytes("i16") {
        Some(Type::I16)
    } else if name == bytes("i32") {
        Some(Type::I32)
    } else if name == bytes("i64") {
        Some(Type::I64)
    } else if name == bytes("str") {
        Some(Type::Str)
    } else {
        None
    }
}

/// Whether `name` has the bytes of `s`.
fn is_named(name: &Vec<u8>, s: &str) -> (r: bool)
    ensures
        r == (name@ == bytes(s)),
{
    let b = s.as_bytes();
    let mut v: Vec<u8> = Vec::new();
    let mut i: usize = 0;
    while i < b.len()
        invariant
            0 <= i <= b@.len(),
            b@ == bytes(s),
            v@ == b@.subrange(0, i as int),
        decreases b@.len() - i,
    {
        v.push(b[i]);
        i += 1;
        assert(v@ =~= b@.subrange(0, i as int));
    }
    assert(b@.subrange(0, b@.len() as int) =~= b@);
    bytes_eq(name, &v)
}

/// The type named by an identifier at `span`, or the error for a name that
/// is no type.
pub fn type_named(name: &Vec<u8>, span: Span) -> (r: Result<Type, Error>)
    ensures
        match spec_type_named(name@) {
            Some(t) => r == Ok::<Type, Error>(t),
            None => r matches Err(Error::Cut(e)) && e == (crate::error::Error {
                span,
                kind: crate::error::ErrorKind::Custom("Undeclared type"),
            }),
        },
{
    if is_named(name, "u8") {
        Ok(Type::U8)
    } else if is_named(name, "u16") {
        Ok(Type::U16)
    } else if is_named(name, "u32") {
        Ok(Type::U32)
    } else if is_named(name, "u64") {
        Ok(Type::U64)
    } else if is_named(name, "i8") {
        Ok(Type::I8)
    } else if is_named(name, "i16") {
        Ok(Type::I16)
    } else if is_named(name, "i32") {
        Ok(Type::I32)
    } else if is_named(name, "i64") {
        Ok(Type::I64)
    } else if is_named(name, "str") {
        Ok(Type::Str)
    } else {
        Err(Error::Cut(span.custom("Undeclared type")))
    }
}

/// The name an identifier token carries, with its span.
pub fn ident_spanned(token: &Token) -> (r: Result<(Span, Vec<u8>), Error>)
    ensures
        match token.kind@ {
            TokenKindOf::Ident(s) => r matches Ok((sp, v)) && sp == token.span && v@ == s,
            _ => r matches Err(Error::Cut(e)) && e == (crate::error::Error {
                span: token.span,
                kind: crate::error::ErrorKind::Custom("Expected identifier"),
            }),
        },
{
    match &token.kind {
        TokenKindOf::Ident(s) => Ok((token.span, copy_bytes(s))),
        _ => Err(Error::Cut(token.span.custom("Expected identifier"))),
    }
}

/// The integer an integer token carries, with its span.
pub fn integer_spanned(token: &Token) -> (r: Result<(Span, u64), Error>)
    ensures
        match token.kind@ {
            TokenKindOf::Integer(n) => r matches Ok((sp, v)) && sp == token.span && v == n,
            _ => r matches Err(Error::Cut(e)) && e == (crate::error::Error {
                span: token.span,
                kind: crate::error::ErrorKind::Custom("Expected integer literal"),
            }),
        },
{
    match &token.kind {
        TokenKindOf::Integer(n) => Ok((token.span, *n)),
        _ => Err(Error::Cut(token.span.custom("Expected integer literal"))),
    }
}

/// The text a string token carries, with its span.
pub fn str_spanned(token: &Token) -> (r: Result<(Span, Vec<u8>), Error>)
    ensures
        match token.kind@ {
            TokenKindOf::Str(s) => r matches Ok((sp, v)) && sp == token.span && v@ == s,
            _ => r matches Err(Error::Cut(e)) && e == (crate::error::Error {
                span: token.span,
                kind: crate::error::ErrorKind::Custom("Expected string literal"),
            }),
        },
{
    match &token.kind {
        TokenKindOf::Str(s) => Ok((token.span, copy_bytes(s))),
        _ => Err(Error::Cut(token.span.custom("Expected string literal"))),
    }
}

/// The span that covers two spans: from the earlier start to the later
/// end.
pub fn spanned(start: Span, end: Span) -> (r: Span)
    ensures
        r.start <= start.start && r.start <= end.start,
        r.end >= start.end && r.end >= end.end,
        r.start == if start.start <= end.start {
            start.start
        } else {
            end.start
        },
        r.end == if start.end >= end.end {
            start.end
        } else {
            end.end
        },
{
    Span {
        start: if start.start <= end.start {
            start.start
        } else {
            end.start
        },
        end: if start.end >= end.end {
            start.end
        } else {
            end.end
        },
    }
}

/// A declared argument of a procedure: its name and type.
#[derive(Debug, PartialEq, Eq)]
pub struct ArgDeclOf<S> {
    pub span: Span,
    pub ident: S,
    pub ty: Type,
}

pub type ArgDecl = ArgDeclOf<Vec<u8>>;

pub type ArgDeclV = ArgDeclOf<Seq<u8>>;

/// A node of the syntax tree that the parser builds.
#[derive(Debug, PartialEq, Eq)]
pub enum Syntax {
    /// A procedure; one declared `extern` has no body.
    Proc {
        span: Span,
        ident: Vec<u8>,
        args: Vec<ArgDecl>,
        variadic: bool,
        ret: Option<(Span, Type)>,
        body: Option<Box<Syntax>>,
    },
    Block { span: Span, children: Vec<Syntax> },
    If { span: Span, condition: Box<Syntax>, body: Box<Syntax> },
    While { span: Span, condition: Box<Syntax>, body: Box<Syntax> },
    Return { span: Span, expr: Option<Box<Syntax>> },
    /// A `let` or, where `is_const`, a `const` declaration.
    VarDecl { span: Span, ident: Vec<u8>, ty: Option<Type>, expr: Box<Syntax>, is_const: bool },
    Call { span: Span, ident: Vec<u8>, args: Vec<Syntax> },
    Variable { span: Span, ident: Vec<u8> },
    Literal { span: Span, literal: Literal },
    Not { span: Span, expr: Box<Syntax> },
    BinOp { span: Span, op: BinOp, lhs: Box<Syntax>, rhs: Box<Syntax> },
}

/// The value of a node of the syntax tree.
pub enum SyntaxV {
    Proc {
        span: Span,
        ident: Seq<u8>,
        args: Seq<ArgDeclV>,
        variadic: bool,
        ret: Option<(Span, Type)>,
        body: Option<Box<SyntaxV>>,
    },
    Block { span: Span, children: Seq<SyntaxV> },
    If { span: Span, condition: Box<SyntaxV>, body: Box<SyntaxV> },
    While { span: Span, condition: Box<SyntaxV>, body: Box<SyntaxV> },
    Return { span: Span, expr: Option<Box<SyntaxV>> },
    VarDecl { span: Span, ident: Seq<u8>, ty: Option<Type>, expr: Box<SyntaxV>, is_const: bool },
    Call { span: Span, ident: Seq<u8>, args: Seq<SyntaxV> },
    Variable { span: Span, ident: Seq<u8> },
    Literal { span: Span, literal: LiteralV },
    Not { span: Span, expr: Box<SyntaxV> },
    BinOp { span: Span, op: BinOp, lhs: Box<SyntaxV>, rhs: Box<SyntaxV> },
}

/// The values of declared arguments.
pub open spec fn arg_decls_v(s: Seq<ArgDecl>) -> Seq<ArgDeclV> {
    s.map_values(|a: ArgDecl| ArgDeclOf { span: a.span, ident: a.ident@, ty: a.ty })
}

impl Syntax {
    /// The value of the node.
    pub open spec fn v(&self) -> SyntaxV
        decreases self,
    {
        match self {
            Syntax::Proc { span, ident, args, variadic, ret, body } => SyntaxV::Proc {
                span: *span,
                ident: ident@,
                args: arg_decls_v(args@),
                variadic: *variadic,
                ret: *ret,
                body: match body {
                    Some(b) => Some(Box::new((**b).v())),
                    None => None,
                },
            },
            Syntax::Block { span, children } => SyntaxV::Block {
                span: *span,
                children: Seq::new(
                    children@.len(),
                    |i: int|
                        if 0 <= i < children@.len() {
                            children@[i].v()
                        } else {
                            arbitrary()
                        },
                ),
            },
            Syntax::If { span, condition, body } => SyntaxV::If {
                span: *span,
                condition: Box::new((**condition).v()),
                body: Box::new((**body).v()),
            },
            Syntax::While { span, condition, body } => SyntaxV::While {
                span: *span,
                condition: Box::new((**condition).v()),
                body: Box::new((**body).v()),
            },
            Syntax::Return { span, expr } => SyntaxV::Return {
                span: *span,
                expr: match expr {
                    Some(e) => Some(Box::new((**e).v())),
                    None => None,
                },
            },
            Syntax::VarDecl { span, ident, ty, expr, is_const } => SyntaxV::VarDecl {
                span: *span,
                ident: ident@,
                ty: *ty,
                expr: Box::new((**expr).v()),
                is_const: *is_const,
            },
            Syntax::Call { span, ident, args } => SyntaxV::Call {
                span: *span,
                ident: ident@,
                args: Seq::new(
                    args@.len(),
                    |i: int|
                        if 0 <= i < args@.len() {
                            args@[i].v()
                        } else {
                            arbitrary()
                        },
                ),
            },
            Syntax::Variable { span, ident } => SyntaxV::Variable { span: *span, ident: ident@ },
            Syntax::Literal { span, literal } => SyntaxV::Literal { span: *span, literal: literal@ },
            Syntax::Not { span, expr } => SyntaxV::Not { span: *span, expr: Box::new((**expr).v()) },
            Syntax::BinOp { span, op, lhs, rhs } => SyntaxV::BinOp {
                span: *span,
                op: *op,
                lhs: Box::new((**lhs).v()),
                rhs: Box::new((**rhs).v()),
            },
        }
    }
}

/// The values of a list of nodes.
pub open spec fn syntaxes_v(s: Seq<Syntax>) -> Seq<SyntaxV> {
    s.map_values(|n: Syntax| n.v())
}

/// The span of a node.
pub open spec fn span_of(n: SyntaxV) -> Span {
    match n {
        SyntaxV::Proc { span, .. } => span,
        SyntaxV::Block { span, .. } => span,
        SyntaxV::If { span, .. } => span,
        SyntaxV::While { span, .. } => span,
        SyntaxV::Return { span, .. } => span,
        SyntaxV::VarDecl { span, .. } => span,
        SyntaxV::Call { span, .. } => span,
        SyntaxV::Variable { span, .. } => span,
        SyntaxV::Literal { span, .. } => span,
        SyntaxV::Not { span, .. } => span,
        SyntaxV::BinOp { span, .. } => span,
    }
}

/// The node with its span replaced by `s`.
pub open spec fn with_span(n: SyntaxV, s: Span) -> SyntaxV {
    match n {
        SyntaxV::Proc { span, ident, args, variadic, ret, body } => SyntaxV::Proc { span: s, ident, args, variadic, ret, body },
        SyntaxV::Block { span, children } => SyntaxV::Block { span: s, children },
        SyntaxV::If { span, condition, body } => SyntaxV::If { span: s, condition, body },
        SyntaxV::While { span, condition, body } => SyntaxV::While { span: s, condition, body },
        SyntaxV::Return { span, expr } => SyntaxV::Return { span: s, expr },
        SyntaxV::VarDecl { span, ident, ty, expr, is_const } => SyntaxV::VarDecl { span: s, ident, ty, expr, is_const },
        SyntaxV::Call { span, ident, args } => SyntaxV::Call { span: s, ident, args },
        SyntaxV::Variable { span, ident } => SyntaxV::Variable { span: s, ident },
        SyntaxV::Literal { span, literal } => SyntaxV::Literal { span: s, literal },
        SyntaxV::Not { span, expr } => SyntaxV::Not { span: s, expr },
        SyntaxV::BinOp { span, op, lhs, rhs } => SyntaxV::BinOp { span: s, op, lhs, rhs },
    }
}

/// The span that covers two spans.
pub open spec fn cover(a: Span, b: Span) -> Span {
    Span {
        start: if a.start <= b.start {
            a.start
        } else {
            b.start
        },
        end: if a.end >= b.end {
            a.end
        } else {
            b.end
        },
    }
}

impl Syntax {
    /// The span of the node.
    pub fn span(&self) -> (r: Span)
        ensures
            r == span_of(self.v()),
    {
        match self {
            Syntax::Proc { span, .. } => *span,
            Syntax::Block { span, .. } => *span,
            Syntax::If { span, .. } => *span,
            Syntax::While { span, .. } => *span,
            Syntax::Return { span, .. } => *span,
            Syntax::VarDecl { span, .. } => *span,
            Syntax::Call { span, .. } => *span,
            Syntax::Variable { span, .. } => *span,
            Syntax::Literal { span, .. } => *span,
            Syntax::Not { span, .. } => *span,
            Syntax::BinOp { span, .. } => *span,
        }
    }

    /// Replaces the span of the node.
    pub fn set_span(&mut self, s: Span)
        ensures
            final(self).v() == with_span(old(self).v(), s),
    {
        match self {
            Syntax::Proc { span, .. } => *span = s,
            Syntax::Block { span, .. } => *span = s,
            Syntax::If { span, .. } => *span = s,
            Syntax::While { span, .. } => *span = s,
            Syntax::Return { span, .. } => *span = s,
            Syntax::VarDecl { span, .. } => *span = s,
            Syntax::Call { span, .. } => *span = s,
            Syntax::Variable { span, .. } => *span = s,
            Syntax::Literal { span, .. } => *span = s,
            Syntax::Not { span, .. } => *span = s,
            Syntax::BinOp { span, .. } => *span = s,
        }
    }
}

/// An error of the parser as a value: where it is, and its fixed or
/// composed message.
pub enum Report {
    Custom(Span, &'static str),
    Msg(Span, Seq<u8>),
}

/// Whether the error `e` is the one `r` describes.
pub open spec fn reports(e: crate::error::Error, r: Report) -> bool {
    match r {
        Report::Custom(span, m) => e == (crate::error::Error {
            span,
            kind: crate::error::ErrorKind::Custom(m),
        }),
        Report::Msg(span, t) => e.span == span && (e.kind matches crate::error::ErrorKind::Msg(m)
            && string_bytes(m) == t),
    }
}

/// The outcome of parsing a construct from position `pos`: a value with
/// the position after it and the span of the last token taken, an error
/// that stops parsing, or the sign that the construct does not start here
/// (with the span of the last token taken before it).
pub enum Parsed<T> {
    Got(T, int, Span),
    Cut(Report),
    Soft(Span),
}

/// The tokens that are expected in fixed places.
#[derive(Debug, Clone, Copy, PartialEq, Eq, Structural)]
pub enum Expect {
    OpenCurly,
    CloseCurly,
    Fn,
    Semi,
    OpenParen,
    Comma,
    CloseParen,
    Colon,
    Equals,
}

/// The kind of an expected token.
pub open spec fn expect_kind(e: Expect) -> TokenKindOf<Seq<u8>> {
    match e {
        Expect::OpenCurly => TokenKindOf::OpenCurly,
        Expect::CloseCurly => TokenKindOf::CloseCurly,
        Expect::Fn => TokenKindOf::Fn,
        Expect::Semi => TokenKindOf::Semi,
        Expect::OpenParen => TokenKindOf::OpenParen,
        Expect::Comma => TokenKindOf::Comma,
        Expect::CloseParen => TokenKindOf::CloseParen,
        Expect::Colon => TokenKindOf::Colon,
        Expect::Equals => TokenKindOf::Equals,
    }
}

/// The message for a missing expected token.
pub open spec fn expect_message(e: Expect) -> &'static str {
    match e {
        Expect::OpenCurly => "Expected `{`",
        Expect::CloseCurly => "Expected `}`",
        Expect::Fn => "Expected `fn`",
        Expect::Semi => "Expected `;`",
        Expect::OpenParen => "Expected `(`",
        Expect::Comma => "Expected `,`",
        Expect::CloseParen => "Expected `)`",
        Expect::Colon => "Expected `:`",
        Expect::Equals => "Expected `=`",
    }
}

/// Takes the expected token, or stops with the error that it is missing,
/// at the token found or, at the end, at the last token taken.
pub open spec fn s_eat_kind(ts: Seq<TokenV>, pos: int, last: Span, e: Expect) -> Parsed<TokenV> {
    if 0 <= pos < ts.len() {
        if ts[pos].kind == expect_kind(e) {
            Parsed::Got(ts[pos], pos + 1, ts[pos].span)
        } else {
            Parsed::Cut(Report::Msg(ts[pos].span, bytes(expect_message(e))))
        }
    } else {
        Parsed::Cut(Report::Msg(last, bytes(expect_message(e))))
    }
}

/// Takes a token of kind `k` where the next one is such.
pub open spec fn s_eat_soft(ts: Seq<TokenV>, pos: int, last: Span, k: TokenKindOf<Seq<u8>>) -> Parsed<TokenV> {
    if 0 <= pos < ts.len() && ts[pos].kind == k {
        Parsed::Got(ts[pos], pos + 1, ts[pos].span)
    } else {
        Parsed::Soft(last)
    }
}

/// Takes an identifier, with its span.
pub open spec fn s_ident(ts: Seq<TokenV>, pos: int, last: Span) -> Parsed<(Span, Seq<u8>)> {
    if 0 <= pos < ts.len() {
        match ts[pos].kind {
            TokenKindOf::Ident(s) => Parsed::Got((ts[pos].span, s), pos + 1, ts[pos].span),
            _ => Parsed::Cut(Report::Custom(ts[pos].span, "Expected identifier")),
        }
    } else {
        Parsed::Cut(Report::Custom(last, "Expected identifier"))
    }
}

/// Takes an identifier where the next token is one.
pub open spec fn s_ident_soft(ts: Seq<TokenV>, pos: int, last: Span) -> Parsed<(Span, Seq<u8>)> {
    match s_ident(ts, pos, last) {
        Parsed::Got(v, p, l) => Parsed::Got(v, p, l),
        _ => Parsed::Soft(last),
    }
}

/// Takes a type name.
pub open spec fn s_ty(ts: Seq<TokenV>, pos: int, last: Span) -> Parsed<(Span, Type)> {
    match s_ident(ts, pos, last) {
        Parsed::Got((span, name), p, l) => match spec_type_named(name) {
            Some(t) => Parsed::Got((span, t), p, l),
            None => Parsed::Cut(Report::Custom(span, "Undeclared type")),
        },
        Parsed::Cut(e) => Parsed::Cut(e),
        Parsed::Soft(s) => Parsed::Soft(s),
    }
}

/// A literal where the next token is an integer or a string.
pub open spec fn p_literal(ts: Seq<TokenV>, pos: int, last: Span, string: bool) -> Parsed<SyntaxV> {
    if 0 <= pos < ts.len() {
        match ts[pos].kind {
            TokenKindOf::Integer(n) => if !string {
                Parsed::Got(
                    SyntaxV::Literal { span: ts[pos].span, literal: LiteralOf::Integer(n) },
                    pos + 1,
                    ts[pos].span,
                )
            } else {
                Parsed::Soft(last)
            },
            TokenKindOf::Str(s) => if string {
                Parsed::Got(
                    SyntaxV::Literal { span: ts[pos].span, literal: LiteralOf::Str(s) },
                    pos + 1,
                    ts[pos].span,
                )
            } else {
                Parsed::Soft(last)
            },
            _ => Parsed::Soft(last),
        }
    } else {
        Parsed::Soft(last)
    }
}

/// A use of a variable.
pub open spec fn p_variable(ts: Seq<TokenV>, pos: int, last: Span) -> Parsed<SyntaxV> {
    match s_ident_soft(ts, pos, last) {
        Parsed::Got((span, name), p, l) => Parsed::Got(SyntaxV::Variable { span, ident: name }, p, l),
        Parsed::Cut(e) => Parsed::Cut(e),
        Parsed::Soft(s) => Parsed::Soft(s),
    }
}

/// Whether a position holds a token that is no closing token of kind `k`.
pub open spec fn more_before(ts: Seq<TokenV>, pos: int, k: TokenKindOf<Seq<u8>>) -> bool {
    0 <= pos < ts.len() && ts[pos].kind != k
}

/// An expression whose operators bind at least as tightly as level `prec`.
pub open spec fn p_bin(ts: Seq<TokenV>, pos: int, last: Span, prec: nat) -> Parsed<SyntaxV>
    decreases ts.len() - pos, 20 - prec,
{
    if pos < 0 || pos > ts.len() || prec > 11 {
        Parsed::Soft(last)
    } else if prec > 10 {
        p_expr(ts, pos, last)
    } else {
        match p_bin(ts, pos, last, prec + 1) {
            Parsed::Got(lhs, p, l) => if pos <= p <= ts.len() {
                p_bin_loop(ts, p, l, lhs, prec)
            } else {
                Parsed::Soft(l)
            },
            Parsed::Cut(e) => Parsed::Cut(e),
            Parsed::Soft(s) => Parsed::Soft(s),
        }
    }
}

/// Folds the operators of level `prec` and their right operands into
/// `lhs`, from left to right.
pub open spec fn p_bin_loop(ts: Seq<TokenV>, pos: int, last: Span, lhs: SyntaxV, prec: nat) -> Parsed<SyntaxV>
    decreases ts.len() - pos, 0nat,
{
    if 0 <= pos < ts.len() && prec <= 10 && BinOp::spec_from_token(ts[pos].kind) is Some
        && spec_precedence(BinOp::spec_from_token(ts[pos].kind)->0) == prec {
        let op = BinOp::spec_from_token(ts[pos].kind)->0;
        match p_bin(ts, pos + 1, ts[pos].span, prec + 1) {
            Parsed::Got(rhs, p, l) => if pos + 1 <= p <= ts.len() {
                p_bin_loop(
                    ts,
                    p,
                    l,
                    SyntaxV::BinOp {
                        span: cover(span_of(lhs), span_of(rhs)),
                        op,
                        lhs: Box::new(lhs),
                        rhs: Box::new(rhs),
                    },
                    prec,
                )
            } else {
                Parsed::Soft(l)
            },
            Parsed::Cut(e) => Parsed::Cut(e),
            Parsed::Soft(s) => Parsed::Soft(s),
        }
    } else {
        Parsed::Got(lhs, pos, last)
    }
}

/// A primary expression: the first of a call, a variable, an integer, a
/// string, a negation and a parenthesised expression that starts here.
pub open spec fn p_expr(ts: Seq<TokenV>, pos: int, last: Span) -> Parsed<SyntaxV>
    decreases ts.len() - pos, 8nat,
{
    if pos < 0 || pos > ts.len() {
        Parsed::Soft(last)
    } else {
        match p_call(ts, pos, last) {
            Parsed::Soft(_) => match p_variable(ts, pos, last) {
                Parsed::Soft(_) => match p_literal(ts, pos, last, false) {
                    Parsed::Soft(_) => match p_literal(ts, pos, last, true) {
                        Parsed::Soft(_) => match p_not(ts, pos, last) {
                            Parsed::Soft(_) => match p_paren(ts, pos, last) {
                                Parsed::Soft(_) => Parsed::Cut(Report::Custom(last, "Invalid expression")),
                                other => other,
                            },
                            other => other,
                        },
                        other => other,
                    },
                    other => other,
                },
                other => other,
            },
            other => other,
        }
    }
}

/// A call once its arguments are read: the closing `)`.
pub open spec fn call_finish(ts: Seq<TokenV>, start: Span, name: Seq<u8>, a: Parsed<Seq<SyntaxV>>) -> Parsed<
    SyntaxV,
> {
    match a {
        Parsed::Got(args, p3, l3) => match s_eat_kind(ts, p3, l3, Expect::CloseParen) {
            Parsed::Got(end, p4, l4) => Parsed::Got(
                SyntaxV::Call { span: cover(start, end.span), ident: name, args },
                p4,
                l4,
            ),
            Parsed::Cut(e) => Parsed::Cut(e),
            Parsed::Soft(s) => Parsed::Soft(s),
        },
        Parsed::Cut(e) => Parsed::Cut(e),
        Parsed::Soft(s) => Parsed::Soft(s),
    }
}

/// A call: a name followed by `(`, the arguments and `)`.
pub open spec fn p_call(ts: Seq<TokenV>, pos: int, last: Span) -> Parsed<SyntaxV>
    decreases ts.len() - pos, 7nat,
{
    if !(0 <= pos && pos + 1 < ts.len() && ts[pos + 1].kind == TokenKindOf::<Seq<u8>>::OpenParen) {
        Parsed::Soft(last)
    } else {
        match s_ident_soft(ts, pos, last) {
            Parsed::Got((start, name), p1, l1) => match s_eat_kind(ts, p1, l1, Expect::OpenParen) {
                Parsed::Got(_, p2, l2) => if pos < p2 <= ts.len() {
                    call_finish(ts, start, name, p_call_args(ts, p2, l2, seq![], true))
                } else {
                    Parsed::Soft(l2)
                },
                Parsed::Cut(e) => Parsed::Cut(e),
                Parsed::Soft(s) => Parsed::Soft(s),
            },
            Parsed::Cut(e) => Parsed::Cut(e),
            Parsed::Soft(s) => Parsed::Soft(s),
        }
    }
}

/// The arguments of a call from `pos` on, after the ones in `acc`.
pub open spec fn p_call_args(ts: Seq<TokenV>, pos: int, last: Span, acc: Seq<SyntaxV>, first: bool) -> Parsed<
    Seq<SyntaxV>,
>
    decreases ts.len() - pos, 21nat,
{
    if more_before(ts, pos, TokenKindOf::CloseParen) {
        let comma = if first {
            Parsed::Got(ts[pos], pos, last)
        } else {
            s_eat_kind(ts, pos, last, Expect::Comma)
        };
        match comma {
            Parsed::Got(_, p1, l1) => if pos <= p1 <= ts.len() {
                match p_bin(ts, p1, l1, 0) {
                    Parsed::Got(e, p2, l2) => if pos < p2 <= ts.len() {
                        p_call_args(ts, p2, l2, acc.push(e), false)
                    } else {
                        Parsed::Soft(l2)
                    },
                    Parsed::Cut(e) => Parsed::Cut(e),
                    Parsed::Soft(s) => Parsed::Soft(s),
                }
            } else {
                Parsed::Soft(l1)
            },
            Parsed::Cut(e) => Parsed::Cut(e),
            Parsed::Soft(s) => Parsed::Soft(s),
        }
    } else {
        Parsed::Got(acc, pos, last)
    }
}

/// A negation: `!` and a primary expression.
pub open spec fn p_not(ts: Seq<TokenV>, pos: int, last: Span) -> Parsed<SyntaxV>
    decreases ts.len() - pos, 7nat,
{
    match s_eat_soft(ts, pos, last, TokenKindOf::Bang) {
        Parsed::Got(start, p1, l1) => if pos < p1 <= ts.len() {
            match p_expr(ts, p1, l1) {
                Parsed::Got(e, p2, l2) => Parsed::Got(
                    SyntaxV::Not { span: cover(start.span, span_of(e)), expr: Box::new(e) },
                    p2,
                    l2,
                ),
                Parsed::Cut(e) => Parsed::Cut(e),
                Parsed::Soft(s) => Parsed::Soft(s),
            }
        } else {
            Parsed::Soft(l1)
        },
        Parsed::Cut(e) => Parsed::Cut(e),
        Parsed::Soft(s) => Parsed::Soft(s),
    }
}

/// An expression in parentheses, which then spans the parentheses.
pub open spec fn p_paren(ts: Seq<TokenV>, pos: int, last: Span) -> Parsed<SyntaxV>
    decreases ts.len() - pos, 7nat,
{
    match s_eat_soft(ts, pos, last, TokenKindOf::OpenParen) {
        Parsed::Got(start, p1, l1) => if pos < p1 <= ts.len() {
            match p_bin(ts, p1, l1, 0) {
                Parsed::Got(e, p2, l2) => match s_eat_kind(ts, p2, l2, Expect::CloseParen) {
                    Parsed::Got(end, p3, l3) => Parsed::Got(with_span(e, cover(start.span, end.span)), p3, l3),
                    Parsed::Cut(x) => Parsed::Cut(x),
                    Parsed::Soft(s) => Parsed::Soft(s),
                },
                Parsed::Cut(e) => Parsed::Cut(e),
                Parsed::Soft(s) => Parsed::Soft(s),
            }
        } else {
            Parsed::Soft(l1)
        },
        Parsed::Cut(e) => Parsed::Cut(e),
        Parsed::Soft(s) => Parsed::Soft(s),
    }
}

/// An expression statement: an expression and `;`, which it then spans up
/// to.
pub open spec fn p_bin_stmt(ts: Seq<TokenV>, pos: int, last: Span) -> Parsed<SyntaxV>
    decreases ts.len() - pos, 21nat,
{
    match p_bin(ts, pos, last, 0) {
        Parsed::Got(e, p1, l1) => match s_eat_kind(ts, p1, l1, Expect::Semi) {
            Parsed::Got(end, p2, l2) => Parsed::Got(with_span(e, cover(span_of(e), end.span)), p2, l2),
            Parsed::Cut(x) => Parsed::Cut(x),
            Parsed::Soft(s) => Parsed::Soft(s),
        },
        Parsed::Cut(e) => Parsed::Cut(e),
        Parsed::Soft(s) => Parsed::Soft(s),
    }
}

/// The type of a declaration, where a `:` follows its name.
pub open spec fn s_decl_type(ts: Seq<TokenV>, pos: int, last: Span) -> Parsed<Option<Type>> {
    match s_eat_soft(ts, pos, last, TokenKindOf::Colon) {
        Parsed::Got(_, p1, l1) => match s_ty(ts, p1, l1) {
            Parsed::Got((_, t), p2, l2) => Parsed::Got(Some(t), p2, l2),
            Parsed::Cut(e) => Parsed::Cut(e),
            Parsed::Soft(s) => Parsed::Soft(s),
        },
        _ => Parsed::Got(None, pos, last),
    }
}

/// The rest of a declaration after `let` or `const`: a name, an optional
/// type, `=` and an expression.
pub open spec fn p_var_decl(ts: Seq<TokenV>, pos: int, last: Span, is_const: bool) -> Parsed<SyntaxV>
    decreases ts.len() - pos, 21nat,
{
    match s_ident(ts, pos, last) {
        Parsed::Got((start, name), p1, l1) => match s_decl_type(ts, p1, l1) {
            Parsed::Got(ty, p2, l2) => match s_eat_kind(ts, p2, l2, Expect::Equals) {
                Parsed::Got(_, p3, l3) => if pos < p3 <= ts.len() {
                    match p_bin(ts, p3, l3, 0) {
                        Parsed::Got(e, p4, l4) => Parsed::Got(
                            SyntaxV::VarDecl {
                                span: cover(start, span_of(e)),
                                ident: name,
                                ty,
                                expr: Box::new(e),
                                is_const,
                            },
                            p4,
                            l4,
                        ),
                        Parsed::Cut(e) => Parsed::Cut(e),
                        Parsed::Soft(s) => Parsed::Soft(s),
                    }
                } else {
                    Parsed::Soft(l3)
                },
                Parsed::Cut(e) => Parsed::Cut(e),
                Parsed::Soft(s) => Parsed::Soft(s),
            },
            Parsed::Cut(e) => Parsed::Cut(e),
            Parsed::Soft(s) => Parsed::Soft(s),
        },
        Parsed::Cut(e) => Parsed::Cut(e),
        Parsed::Soft(s) => Parsed::Soft(s),
    }
}

/// A `let` declaration, or where `is_const` a `const` one, up to its `;`,
/// which it then spans from the keyword to.
pub open spec fn p_decl(ts: Seq<TokenV>, pos: int, last: Span, is_const: bool) -> Parsed<SyntaxV>
    decreases ts.len() - pos, 22nat,
{
    let keyword = if is_const {
        TokenKindOf::Const
    } else {
        TokenKindOf::Let
    };
    match s_eat_soft(ts, pos, last, keyword) {
        Parsed::Got(start, p1, l1) => if pos < p1 <= ts.len() {
            match p_var_decl(ts, p1, l1, is_const) {
                Parsed::Got(d, p2, l2) => match s_eat_kind(ts, p2, l2, Expect::Semi) {
                    Parsed::Got(end, p3, l3) => Parsed::Got(with_span(d, cover(start.span, end.span)), p3, l3),
                    Parsed::Cut(e) => Parsed::Cut(e),
                    Parsed::Soft(s) => Parsed::Soft(s),
                },
                Parsed::Cut(e) => Parsed::Cut(e),
                Parsed::Soft(s) => Parsed::Soft(s),
            }
        } else {
            Parsed::Soft(l1)
        },
        Parsed::Cut(e) => Parsed::Cut(e),
        Parsed::Soft(s) => Parsed::Soft(s),
    }
}

/// A `return` statement, with or without an expression.
pub open spec fn p_return(ts: Seq<TokenV>, pos: int, last: Span) -> Parsed<SyntaxV>
    decreases ts.len() - pos, 21nat,
{
    match s_eat_soft(ts, pos, last, TokenKindOf::Return) {
        Parsed::Got(start, p1, l1) => if !(pos < p1 <= ts.len()) {
            Parsed::Soft(l1)
        } else if p1 < ts.len() && ts[p1].kind == TokenKindOf::<Seq<u8>>::Semi {
            match s_eat_kind(ts, p1, l1, Expect::Semi) {
                Parsed::Got(end, p2, l2) => Parsed::Got(
                    SyntaxV::Return { span: cover(start.span, end.span), expr: None },
                    p2,
                    l2,
                ),
                Parsed::Cut(e) => Parsed::Cut(e),
                Parsed::Soft(s) => Parsed::Soft(s),
            }
        } else {
            match p_bin(ts, p1, l1, 0) {
                Parsed::Got(e, p2, l2) => match s_eat_kind(ts, p2, l2, Expect::Semi) {
                    Parsed::Got(end, p3, l3) => Parsed::Got(
                        SyntaxV::Return { span: cover(start.span, end.span), expr: Some(Box::new(e)) },
                        p3,
                        l3,
                    ),
                    Parsed::Cut(x) => Parsed::Cut(x),
                    Parsed::Soft(s) => Parsed::Soft(s),
                },
                Parsed::Cut(e) => Parsed::Cut(e),
                Parsed::Soft(s) => Parsed::Soft(s),
            }
        }
        Parsed::Cut(e) => Parsed::Cut(e),
        Parsed::Soft(s) => Parsed::Soft(s),
    }
}

/// `if` or, where not `is_if`, `while`: a keyword, a condition and a
/// block.
pub open spec fn p_cond(ts: Seq<TokenV>, pos: int, last: Span, is_if: bool) -> Parsed<SyntaxV>
    decreases ts.len() - pos, 22nat,
{
    let keyword = if is_if {
        TokenKindOf::If
    } else {
        TokenKindOf::While
    };
    match s_eat_soft(ts, pos, last, keyword) {
        Parsed::Got(start, p1, l1) => if pos < p1 <= ts.len() {
            match p_bin(ts, p1, l1, 0) {
                Parsed::Got(c, p2, l2) => if pos < p2 <= ts.len() {
                    match p_block(ts, p2, l2) {
                        Parsed::Got(b, p3, l3) => {
                            let span = cover(start.span, span_of(b));
                            Parsed::Got(
                                if is_if {
                                    SyntaxV::If { span, condition: Box::new(c), body: Box::new(b) }
                                } else {
                                    SyntaxV::While { span, condition: Box::new(c), body: Box::new(b) }
                                },
                                p3,
                                l3,
                            )
                        },
                        Parsed::Cut(e) => Parsed::Cut(e),
                        Parsed::Soft(s) => Parsed::Soft(s),
                    }
                } else {
                    Parsed::Soft(l2)
                },
                Parsed::Cut(e) => Parsed::Cut(e),
                Parsed::Soft(s) => Parsed::Soft(s),
            }
        } else {
            Parsed::Soft(l1)
        },
        Parsed::Cut(e) => Parsed::Cut(e),
        Parsed::Soft(s) => Parsed::Soft(s),
    }
}

/// A block once its statements are read: the closing `}`.
pub open spec fn block_finish(ts: Seq<TokenV>, start: Span, a: Parsed<Seq<SyntaxV>>) -> Parsed<SyntaxV> {
    match a {
        Parsed::Got(children, p2, l2) => match s_eat_kind(ts, p2, l2, Expect::CloseCurly) {
            Parsed::Got(end, p3, l3) => Parsed::Got(
                SyntaxV::Block { span: cover(start, end.span), children },
                p3,
                l3,
            ),
            Parsed::Cut(e) => Parsed::Cut(e),
            Parsed::Soft(s) => Parsed::Soft(s),
        },
        Parsed::Cut(e) => Parsed::Cut(e),
        Parsed::Soft(s) => Parsed::Soft(s),
    }
}

/// A block: `{`, statements up to the matching `}`, and `}`.
pub open spec fn p_block(ts: Seq<TokenV>, pos: int, last: Span) -> Parsed<SyntaxV>
    decreases ts.len() - pos, 22nat,
{
    match s_eat_kind(ts, pos, last, Expect::OpenCurly) {
        Parsed::Got(start, p1, l1) => if pos < p1 <= ts.len() {
            block_finish(ts, start.span, p_block_loop(ts, p1, l1, seq![]))
        } else {
            Parsed::Soft(l1)
        },
        Parsed::Cut(e) => Parsed::Cut(e),
        Parsed::Soft(s) => Parsed::Soft(s),
    }
}

/// The statements of a block from `pos` on, after the ones in `acc`, up to
/// a `}` or the end.
pub open spec fn p_block_loop(ts: Seq<TokenV>, pos: int, last: Span, acc: Seq<SyntaxV>) -> Parsed<
    Seq<SyntaxV>,
>
    decreases ts.len() - pos, 25nat,
{
    if more_before(ts, pos, TokenKindOf::CloseCurly) {
        match p_any(ts, pos, last) {
            Parsed::Got(c, p1, l1) => if pos < p1 <= ts.len() {
                p_block_loop(ts, p1, l1, acc.push(c))
            } else {
                Parsed::Soft(l1)
            },
            Parsed::Cut(e) => Parsed::Cut(e),
            Parsed::Soft(s) => Parsed::Soft(s),
        }
    } else {
        Parsed::Got(acc, pos, last)
    }
}

/// A block where the next token is `{`.
pub open spec fn p_block_soft(ts: Seq<TokenV>, pos: int, last: Span) -> Parsed<SyntaxV>
    decreases ts.len() - pos, 23nat,
{
    if 0 <= pos < ts.len() && ts[pos].kind == TokenKindOf::<Seq<u8>>::OpenCurly {
        p_block(ts, pos, last)
    } else {
        Parsed::Soft(last)
    }
}

/// What a procedure declares before its body: its name, its arguments
/// (whether they end in `...`) and its result type.
pub struct SigV {
    pub ident: Seq<u8>,
    pub args: Seq<ArgDeclV>,
    pub variadic: bool,
    pub ret: Option<(Span, Type)>,
}

/// The declared arguments from `pos` on, after the ones in `acc`, up to
/// `)`, a `...` or the end.
pub open spec fn p_sig_args(ts: Seq<TokenV>, pos: int, last: Span, acc: Seq<ArgDeclV>, first: bool) -> Parsed<
    (Seq<ArgDeclV>, bool),
>
    decreases ts.len() - pos,
{
    if more_before(ts, pos, TokenKindOf::CloseParen) {
        let comma = if first {
            Parsed::Got(ts[pos], pos, last)
        } else {
            s_eat_kind(ts, pos, last, Expect::Comma)
        };
        match comma {
            Parsed::Got(_, p1, l1) => match s_eat_soft(ts, p1, l1, TokenKindOf::Variadic) {
                Parsed::Got(_, p2, l2) => Parsed::Got((acc, true), p2, l2),
                _ => match s_ident(ts, p1, l1) {
                    Parsed::Got((start, name), p2, l2) => match s_eat_kind(ts, p2, l2, Expect::Colon) {
                        Parsed::Got(_, p3, l3) => match s_ty(ts, p3, l3) {
                            Parsed::Got((end, ty), p4, l4) => if pos < p4 <= ts.len() {
                                p_sig_args(
                                    ts,
                                    p4,
                                    l4,
                                    acc.push(ArgDeclOf { span: cover(start, end), ident: name, ty }),
                                    false,
                                )
                            } else {
                                Parsed::Soft(l4)
                            },
                            Parsed::Cut(e) => Parsed::Cut(e),
                            Parsed::Soft(s) => Parsed::Soft(s),
                        },
                        Parsed::Cut(e) => Parsed::Cut(e),
                        Parsed::Soft(s) => Parsed::Soft(s),
                    },
                    Parsed::Cut(e) => Parsed::Cut(e),
                    Parsed::Soft(s) => Parsed::Soft(s),
                },
            },
            Parsed::Cut(e) => Parsed::Cut(e),
            Parsed::Soft(s) => Parsed::Soft(s),
        }
    } else {
        Parsed::Got((acc, false), pos, last)
    }
}

/// The result type of a procedure, where `->` follows its arguments.
pub open spec fn s_ret_type(ts: Seq<TokenV>, pos: int, last: Span) -> Parsed<Option<(Span, Type)>> {
    match s_eat_soft(ts, pos, last, TokenKindOf::Arrow) {
        Parsed::Got(_, p1, l1) => match s_ty(ts, p1, l1) {
            Parsed::Got(t, p2, l2) => Parsed::Got(Some(t), p2, l2),
            Parsed::Cut(e) => Parsed::Cut(e),
            Parsed::Soft(s) => Parsed::Soft(s),
        },
        _ => Parsed::Got(None, pos, last),
    }
}

/// A signature once its arguments are read: `)` and the result type.
pub open spec fn sig_finish(ts: Seq<TokenV>, name: Seq<u8>, a: Parsed<(Seq<ArgDeclV>, bool)>) -> Parsed<SigV> {
    match a {
        Parsed::Got((args, variadic), p3, l3) => match s_eat_kind(ts, p3, l3, Expect::CloseParen) {
            Parsed::Got(_, p4, l4) => match s_ret_type(ts, p4, l4) {
                Parsed::Got(ret, p5, l5) => Parsed::Got(SigV { ident: name, args, variadic, ret }, p5, l5),
                Parsed::Cut(e) => Parsed::Cut(e),
                Parsed::Soft(s) => Parsed::Soft(s),
            },
            Parsed::Cut(e) => Parsed::Cut(e),
            Parsed::Soft(s) => Parsed::Soft(s),
        },
        Parsed::Cut(e) => Parsed::Cut(e),
        Parsed::Soft(s) => Parsed::Soft(s),
    }
}

/// The signature of a procedure after `fn`.
pub open spec fn p_sig(ts: Seq<TokenV>, pos: int, last: Span) -> Parsed<SigV> {
    match s_ident(ts, pos, last) {
        Parsed::Got((_, name), p1, l1) => match s_eat_kind(ts, p1, l1, Expect::OpenParen) {
            Parsed::Got(_, p2, l2) => sig_finish(ts, name, p_sig_args(ts, p2, l2, seq![], true)),
            Parsed::Cut(e) => Parsed::Cut(e),
            Parsed::Soft(s) => Parsed::Soft(s),
        },
        Parsed::Cut(e) => Parsed::Cut(e),
        Parsed::Soft(s) => Parsed::Soft(s),
    }
}

/// A procedure: `fn`, its signature and its body, or, where `is_extern`,
/// `extern fn`, its signature and `;`.
pub open spec fn p_proc(ts: Seq<TokenV>, pos: int, last: Span, is_extern: bool) -> Parsed<SyntaxV>
    decreases ts.len() - pos, 22nat,
{
    let keyword = if is_extern {
        TokenKindOf::Extern
    } else {
        TokenKindOf::Fn
    };
    match s_eat_soft(ts, pos, last, keyword) {
        Parsed::Got(start, p1, l1) => {
            let sig = if is_extern {
                match s_eat_kind(ts, p1, l1, Expect::Fn) {
                    Parsed::Got(_, p2, l2) => p_sig(ts, p2, l2),
                    Parsed::Cut(e) => Parsed::Cut(e),
                    Parsed::Soft(s) => Parsed::Soft(s),
                }
            } else {
                p_sig(ts, p1, l1)
            };
            match sig {
                Parsed::Got(sg, p3, l3) => if is_extern {
                    match s_eat_kind(ts, p3, l3, Expect::Semi) {
                        Parsed::Got(end, p4, l4) => Parsed::Got(
                            SyntaxV::Proc {
                                span: cover(start.span, end.span),
                                ident: sg.ident,
                                args: sg.args,
                                variadic: sg.variadic,
                                ret: sg.ret,
                                body: None,
                            },
                            p4,
                            l4,
                        ),
                        Parsed::Cut(e) => Parsed::Cut(e),
                        Parsed::Soft(s) => Parsed::Soft(s),
                    }
                } else if pos < p3 <= ts.len() {
                    match p_block(ts, p3, l3) {
                        Parsed::Got(b, p4, l4) => Parsed::Got(
                            SyntaxV::Proc {
                                span: cover(start.span, span_of(b)),
                                ident: sg.ident,
                                args: sg.args,
                                variadic: sg.variadic,
                                ret: sg.ret,
                                body: Some(Box::new(b)),
                            },
                            p4,
                            l4,
                        ),
                        Parsed::Cut(e) => Parsed::Cut(e),
                        Parsed::Soft(s) => Parsed::Soft(s),
                    }
                } else {
                    Parsed::Soft(l3)
                },
                Parsed::Cut(e) => Parsed::Cut(e),
                Parsed::Soft(s) => Parsed::Soft(s),
            }
        },
        Parsed::Cut(e) => Parsed::Cut(e),
        Parsed::Soft(s) => Parsed::Soft(s),
    }
}

/// A statement: the first of a procedure, an `extern` procedure, a
/// constant, a `let`, a `return`, an `if`, a `while`, a block and an
/// expression statement that starts here.
pub open spec fn p_any(ts: Seq<TokenV>, pos: int, last: Span) -> Parsed<SyntaxV>
    decreases ts.len() - pos, 24nat,
{
    if pos < 0 || pos > ts.len() {
        Parsed::Soft(last)
    } else {
        match p_proc(ts, pos, last, false) {
            Parsed::Soft(_) => match p_proc(ts, pos, last, true) {
                Parsed::Soft(_) => match p_decl(ts, pos, last, true) {
                    Parsed::Soft(_) => match p_decl(ts, pos, last, false) {
                        Parsed::Soft(_) => match p_return(ts, pos, last) {
                            Parsed::Soft(_) => match p_cond(ts, pos, last, true) {
                                Parsed::Soft(_) => match p_cond(ts, pos, last, false) {
                                    Parsed::Soft(_) => match p_block_soft(ts, pos, last) {
                                        Parsed::Soft(_) => match p_bin_stmt(ts, pos, last) {
                                            Parsed::Soft(_) => Parsed::Cut(
                                                Report::Custom(last, "How did you get here ;-)"),
                                            ),
                                            other => other,
                                        },
                                        other => other,
                                    },
                                    other => other,
                                },
                                other => other,
                            },
                            other => other,
                        },
                        other => other,
                    },
                    other => other,
                },
                other => other,
            },
            other => other,
        }
    }
}

/// The statements of a source from `pos` on, after the ones in `acc`.
pub open spec fn p_file(ts: Seq<TokenV>, pos: int, last: Span, acc: Seq<SyntaxV>) -> Parsed<Seq<SyntaxV>>
    decreases ts.len() - pos,
{
    if 0 <= pos < ts.len() {
        match p_any(ts, pos, last) {
            Parsed::Got(c, p1, l1) => if pos < p1 <= ts.len() {
                p_file(ts, p1, l1, acc.push(c))
            } else {
                Parsed::Soft(l1)
            },
            Parsed::Cut(e) => Parsed::Cut(e),
            Parsed::Soft(s) => Parsed::Soft(s),
        }
    } else {
        Parsed::Got(acc, pos, last)
    }
}

/// The statements of a source's tokens, or the error that stops parsing; a
/// construct that does not start anywhere is reported as a fault of the
/// parser.
pub open spec fn spec_parse_tokens(ts: Seq<TokenV>) -> Result<Seq<SyntaxV>, Report> {
    if ts.len() == 0 {
        Ok(seq![])
    } else {
        match p_file(ts, 0, ts[0].span, seq![]) {
            Parsed::Got(nodes, _, _) => Ok(nodes),
            Parsed::Cut(e) => Err(e),
            Parsed::Soft(s) => Err(Report::Custom(s, "Recoverable error ignored, this is a bug!")),
        }
    }
}

/// The failure `e` matched by the outcome `p` that gave no value.
pub open spec fn stopped<T>(p: Parsed<T>, e: Error) -> bool {
    match p {
        Parsed::Got(_, _, _) => false,
        Parsed::Cut(rep) => e matches Error::Cut(x) && reports(x, rep),
        Parsed::Soft(s) => e matches Error::Recoverable(x) && x == s,
    }
}

/// The outcome `p` matched by the node result `r`.
pub open spec fn syn_result(p: Parsed<SyntaxV>, r: Result<(Syntax, usize, Span), Error>) -> bool {
    match p {
        Parsed::Got(v, q, l) => r matches Ok((x, m, k)) && x.v() == v && m == q && k == l,
        _ => r matches Err(e) && stopped(p, e),
    }
}

/// The outcome `p` of taking a token matched by the result `r`, which
/// gives the token's span.
pub open spec fn tok_result(p: Parsed<TokenV>, r: Result<(Span, usize, Span), Error>) -> bool {
    match p {
        Parsed::Got(t, q, l) => r matches Ok((s, m, k)) && s == t.span && m == q && k == l,
        _ => r matches Err(e) && stopped(p, e),
    }
}

/// Whether a token has the kind expected.
fn is_expected(k: &TokenKind, e: Expect) -> (r: bool)
    ensures
        r == (k@ == expect_kind(e)),
{
    match e {
        Expect::OpenCurly => matches!(k, TokenKindOf::OpenCurly),
        Expect::CloseCurly => matches!(k, TokenKindOf::CloseCurly),
        Expect::Fn => matches!(k, TokenKindOf::Fn),
        Expect::Semi => matches!(k, TokenKindOf::Semi),
        Expect::OpenParen => matches!(k, TokenKindOf::OpenParen),
        Expect::Comma => matches!(k, TokenKindOf::Comma),
        Expect::CloseParen => matches!(k, TokenKindOf::CloseParen),
        Expect::Colon => matches!(k, TokenKindOf::Colon),
        Expect::Equals => matches!(k, TokenKindOf::Equals),
    }
}

/// The message for a missing expected token.
fn expect_text(e: Expect) -> (r: &'static str)
    ensures
        r == expect_message(e),
{
    match e {
        Expect::OpenCurly => "Expected `{`",
        Expect::CloseCurly => "Expected `}`",
        Expect::Fn => "Expected `fn`",
        Expect::Semi => "Expected `;`",
        Expect::OpenParen => "Expected `(`",
        Expect::Comma => "Expected `,`",
        Expect::CloseParen => "Expected `)`",
        Expect::Colon => "Expected `:`",
        Expect::Equals => "Expected `=`",
    }
}

/// The error for a missing expected token at `span`.
fn missing(span: Span, e: Expect) -> (r: Error)
    ensures
        r matches Error::Cut(x) && reports(x, Report::Msg(span, bytes(expect_message(e)))),
{
    let m = String::from_str(expect_text(e));
    Error::Cut(span.msg(m))
}

/// Takes the expected token.
fn eat_kind(ts: &[Token], pos: usize, last: Span, e: Expect) -> (r: Result<(Span, usize, Span), Error>)
    ensures
        tok_result(s_eat_kind(tokens_view(ts@), pos as int, last, e), r),
{
    if pos < ts.len() {
        if is_expected(&ts[pos].kind, e) {
            Ok((ts[pos].span, pos + 1, ts[pos].span))
        } else {
            Err(missing(ts[pos].span, e))
        }
    } else {
        Err(missing(last, e))
    }
}

/// Takes a token of kind `k` where the next one is such.
fn eat_soft(ts: &[Token], pos: usize, last: Span, k: &TokenKind) -> (r: Result<(Span, usize, Span), Error>)
    ensures
        tok_result(s_eat_soft(tokens_view(ts@), pos as int, last, k@), r),
{
    if pos < ts.len() && ts[pos].kind.same(k) {
        Ok((ts[pos].span, pos + 1, ts[pos].span))
    } else {
        Err(Error::Recoverable(last))
    }
}

/// Whether the token at `pos` has kind `k`.
fn kind_at(ts: &[Token], pos: usize, k: &TokenKind) -> (r: bool)
    ensures
        r == (0 <= pos < ts@.len() && tokens_view(ts@)[pos as int].kind == k@),
{
    pos < ts.len() && ts[pos].kind.same(k)
}

/// The outcome `p` of taking a name matched by the result `r`.
pub open spec fn name_result(p: Parsed<(Span, Seq<u8>)>, r: Result<(Span, Vec<u8>, usize, Span), Error>) -> bool {
    match p {
        Parsed::Got((s, n), q, l) => r matches Ok((x, v, m, k)) && x == s && v@ == n && m == q && k == l,
        _ => r matches Err(e) && stopped(p, e),
    }
}

/// Takes an identifier.
fn eat_ident(ts: &[Token], pos: usize, last: Span) -> (r: Result<(Span, Vec<u8>, usize, Span), Error>)
    ensures
        name_result(s_ident(tokens_view(ts@), pos as int, last), r),
{
    if pos < ts.len() {
        match ident_spanned(&ts[pos]) {
            Ok((span, name)) => Ok((span, name, pos + 1, ts[pos].span)),
            Err(e) => Err(e),
        }
    } else {
        Err(Error::Cut(last.custom("Expected identifier")))
    }
}

/// Takes an identifier where the next token is one.
fn eat_ident_soft(ts: &[Token], pos: usize, last: Span) -> (r: Result<(Span, Vec<u8>, usize, Span), Error>)
    ensures
        name_result(s_ident_soft(tokens_view(ts@), pos as int, last), r),
{
    match eat_ident(ts, pos, last) {
        Ok(v) => Ok(v),
        Err(_) => Err(Error::Recoverable(last)),
    }
}

/// Takes a type name.
fn eat_ty(ts: &[Token], pos: usize, last: Span) -> (r: Result<(Span, Type, usize, Span), Error>)
    ensures
        match s_ty(tokens_view(ts@), pos as int, last) {
            Parsed::Got((s, t), q, l) => r matches Ok((x, y, m, k)) && x == s && y == t && m == q && k == l,
            other => r matches Err(e) && stopped(other, e),
        },
{
    let (span, name, p, l) = eat_ident(ts, pos, last)?;
    let t = type_named(&name, span)?;
    Ok((span, t, p, l))
}

/// A literal where the next token is an integer or, where `string`, a
/// string.
fn literal(ts: &[Token], pos: usize, last: Span, string: bool) -> (r: Result<(Syntax, usize, Span), Error>)
    ensures
        syn_result(p_literal(tokens_view(ts@), pos as int, last, string), r),
{
    if pos < ts.len() {
        match &ts[pos].kind {
            TokenKindOf::Integer(n) => if !string {
                return Ok(
                    (
                        Syntax::Literal { span: ts[pos].span, literal: LiteralOf::Integer(*n) },
                        pos + 1,
                        ts[pos].span,
                    ),
                );
            },
            TokenKindOf::Str(s) => if string {
                return Ok(
                    (
                        Syntax::Literal { span: ts[pos].span, literal: LiteralOf::Str(copy_bytes(s)) },
                        pos + 1,
                        ts[pos].span,
                    ),
                );
            },
            _ => {},
        }
    }
    Err(Error::Recoverable(last))
}

/// A use of a variable.
fn variable(ts: &[Token], pos: usize, last: Span) -> (r: Result<(Syntax, usize, Span), Error>)
    ensures
        syn_result(p_variable(tokens_view(ts@), pos as int, last), r),
{
    let (span, name, p, l) = eat_ident_soft(ts, pos, last)?;
    Ok((Syntax::Variable { span, ident: name }, p, l))
}

/// The values of a list with one more node.
proof fn lemma_syntaxes_push(s: Seq<Syntax>, n: Syntax)
    ensures
        syntaxes_v(s.push(n)) == syntaxes_v(s).push(n.v()),
{
    assert(syntaxes_v(s.push(n)) =~= syntaxes_v(s).push(n.v()));
}

/// An expression whose operators bind at least as tightly as level `prec`.
fn bin(ts: &[Token], pos: usize, last: Span, prec: usize) -> (r: Result<(Syntax, usize, Span), Error>)
    requires
        pos <= ts@.len(),
        prec <= 11,
    ensures
        syn_result(p_bin(tokens_view(ts@), pos as int, last, prec as nat), r),
        r matches Ok((_, p, _)) ==> pos < p <= ts@.len(),
    decreases ts@.len() - pos, 20 - prec,
{
    let ghost tv = tokens_view(ts@);
    if prec > BinOp::max_precedence() {
        return expr(ts, pos, last);
    }
    let (first, p, l) = bin(ts, pos, last, prec + 1)?;
    let mut lhs = first;
    let mut cur = p;
    let mut cl = l;
    loop
        invariant
            tv == tokens_view(ts@),
            prec <= 10,
            pos < cur <= ts@.len(),
            p_bin(tv, pos as int, last, prec as nat) == p_bin_loop(tv, cur as int, cl, lhs.v(), prec as nat),
        decreases ts@.len() - cur,
    {
        if cur < ts.len() {
            if let Some(op) = BinOp::from_token(&ts[cur].kind) {
                if op.precedence() == prec {
                    let (rhs, p2, l2) = bin(ts, cur + 1, ts[cur].span, prec + 1)?;
                    let span = spanned(lhs.span(), rhs.span());
                    lhs = Syntax::BinOp { span, op, lhs: Box::new(lhs), rhs: Box::new(rhs) };
                    cur = p2;
                    cl = l2;
                    continue;
                }
            }
        }
        return Ok((lhs, cur, cl));
    }
}

/// A primary expression.
fn expr(ts: &[Token], pos: usize, last: Span) -> (r: Result<(Syntax, usize, Span), Error>)
    requires
        pos <= ts@.len(),
    ensures
        syn_result(p_expr(tokens_view(ts@), pos as int, last), r),
        r matches Ok((_, p, _)) ==> pos < p <= ts@.len(),
    decreases ts@.len() - pos, 8nat,
{
    match call(ts, pos, last) {
        Err(Error::Recoverable(_)) => {},
        other => {
            return other;
        },
    }
    match variable(ts, pos, last) {
        Err(Error::Recoverable(_)) => {},
        other => {
            return other;
        },
    }
    match literal(ts, pos, last, false) {
        Err(Error::Recoverable(_)) => {},
        other => {
            return other;
        },
    }
    match literal(ts, pos, last, true) {
        Err(Error::Recoverable(_)) => {},
        other => {
            return other;
        },
    }
    match not(ts, pos, last) {
        Err(Error::Recoverable(_)) => {},
        other => {
            return other;
        },
    }
    match paren(ts, pos, last) {
        Err(Error::Recoverable(_)) => {},
        other => {
            return other;
        },
    }
    Err(Error::Cut(last.custom("Invalid expression")))
}

/// A call.
fn call(ts: &[Token], pos: usize, last: Span) -> (r: Result<(Syntax, usize, Span), Error>)
    requires
        pos <= ts@.len(),
    ensures
        syn_result(p_call(tokens_view(ts@), pos as int, last), r),
        r matches Ok((_, p, _)) ==> pos < p <= ts@.len(),
    decreases ts@.len() - pos, 7nat,
{
    let ghost tv = tokens_view(ts@);
    if !(ts.len() > 1 && pos < ts.len() - 1 && matches!(ts[pos + 1].kind, TokenKindOf::OpenParen)) {
        return Err(Error::Recoverable(last));
    }
    let (start, name, p1, l1) = eat_ident_soft(ts, pos, last)?;
    let (_, p2, l2) = eat_kind(ts, p1, l1, Expect::OpenParen)?;
    let mut args: Vec<Syntax> = Vec::new();
    let mut cur = p2;
    let mut cl = l2;
    let mut first = true;
    let close = TokenKindOf::CloseParen;
    assert(syntaxes_v(args@) =~= seq![]);
    while cur < ts.len() && !ts[cur].kind.same(&close)
        invariant
            tv == tokens_view(ts@),
            close@ == TokenKindOf::<Seq<u8>>::CloseParen,
            pos < p2 <= cur <= ts@.len(),
            p_call(tv, pos as int, last) == call_finish(tv, start, name@, p_call_args(tv, cur as int, cl, syntaxes_v(args@), first)),
        decreases ts@.len() - cur,
    {
        let (p1, l1) = if first {
            (cur, cl)
        } else {
            let (_, p, l) = eat_kind(ts, cur, cl, Expect::Comma)?;
            (p, l)
        };
        let (e, pe, le) = bin(ts, p1, l1, 0)?;
        proof {
            lemma_syntaxes_push(args@, e);
        }
        args.push(e);
        cur = pe;
        cl = le;
        first = false;
    }
    let (end, p4, l4) = eat_kind(ts, cur, cl, Expect::CloseParen)?;
    let ghost av = syntaxes_v(args@);
    let n = Syntax::Call { span: spanned(start, end), ident: name, args };
    assert(n.v() matches SyntaxV::Call { args: a, .. } && a =~= av);
    Ok((n, p4, l4))
}

/// A negation.
fn not(ts: &[Token], pos: usize, last: Span) -> (r: Result<(Syntax, usize, Span), Error>)
    requires
        pos <= ts@.len(),
    ensures
        syn_result(p_not(tokens_view(ts@), pos as int, last), r),
        r matches Ok((_, p, _)) ==> pos < p <= ts@.len(),
    decreases ts@.len() - pos, 7nat,
{
    let bang = TokenKindOf::Bang;
    let (start, p1, l1) = eat_soft(ts, pos, last, &bang)?;
    let (e, p2, l2) = expr(ts, p1, l1)?;
    let span = spanned(start, e.span());
    Ok((Syntax::Not { span, expr: Box::new(e) }, p2, l2))
}

/// A parenthesised expression.
fn paren(ts: &[Token], pos: usize, last: Span) -> (r: Result<(Syntax, usize, Span), Error>)
    requires
        pos <= ts@.len(),
    ensures
        syn_result(p_paren(tokens_view(ts@), pos as int, last), r),
        r matches Ok((_, p, _)) ==> pos < p <= ts@.len(),
    decreases ts@.len() - pos, 7nat,
{
    let open = TokenKindOf::OpenParen;
    let (start, p1, l1) = eat_soft(ts, pos, last, &open)?;
    let (mut e, p2, l2) = bin(ts, p1, l1, 0)?;
    let (end, p3, l3) = eat_kind(ts, p2, l2, Expect::CloseParen)?;
    e.set_span(spanned(start, end));
    Ok((e, p3, l3))
}

/// An expression statement.
fn bin_stmt(ts: &[Token], pos: usize, last: Span) -> (r: Result<(Syntax, usize, Span), Error>)
    requires
        pos <= ts@.len(),
    ensures
        syn_result(p_bin_stmt(tokens_view(ts@), pos as int, last), r),
        r matches Ok((_, p, _)) ==> pos < p <= ts@.len(),
    decreases ts@.len() - pos, 21nat,
{
    let (mut e, p1, l1) = bin(ts, pos, last, 0)?;
    let (end, p2, l2) = eat_kind(ts, p1, l1, Expect::Semi)?;
    let span = spanned(e.span(), end);
    e.set_span(span);
    Ok((e, p2, l2))
}

/// The type of a declaration, where a `:` follows its name.
fn decl_type(ts: &[Token], pos: usize, last: Span) -> (r: Result<(Option<Type>, usize, Span), Error>)
    requires
        pos <= ts@.len(),
    ensures
        match s_decl_type(tokens_view(ts@), pos as int, last) {
            Parsed::Got(t, q, l) => r matches Ok((x, m, k)) && x == t && m == q && k == l,
            other => r matches Err(e) && stopped(other, e),
        },
        r matches Ok((_, p, _)) ==> pos <= p <= ts@.len(),
{
    let colon = TokenKindOf::Colon;
    match eat_soft(ts, pos, last, &colon) {
        Ok((_, p1, l1)) => {
            let (_, t, p2, l2) = eat_ty(ts, p1, l1)?;
            Ok((Some(t), p2, l2))
        },
        Err(_) => Ok((None, pos, last)),
    }
}

/// The rest of a declaration after its keyword.
fn var_decl(ts: &[Token], pos: usize, last: Span, is_const: bool) -> (r: Result<(Syntax, usize, Span), Error>)
    requires
        pos <= ts@.len(),
    ensures
        syn_result(p_var_decl(tokens_view(ts@), pos as int, last, is_const), r),
        r matches Ok((_, p, _)) ==> pos < p <= ts@.len(),
    decreases ts@.len() - pos, 21nat,
{
    let (start, name, p1, l1) = eat_ident(ts, pos, last)?;
    let (ty, p2, l2) = decl_type(ts, p1, l1)?;
    let (_, p3, l3) = eat_kind(ts, p2, l2, Expect::Equals)?;
    let (e, p4, l4) = bin(ts, p3, l3, 0)?;
    let span = spanned(start, e.span());
    Ok((Syntax::VarDecl { span, ident: name, ty, expr: Box::new(e), is_const }, p4, l4))
}

/// A `let` or, where `is_const`, a `const` declaration.
fn decl(ts: &[Token], pos: usize, last: Span, is_const: bool) -> (r: Result<(Syntax, usize, Span), Error>)
    requires
        pos <= ts@.len(),
    ensures
        syn_result(p_decl(tokens_view(ts@), pos as int, last, is_const), r),
        r matches Ok((_, p, _)) ==> pos < p <= ts@.len(),
    decreases ts@.len() - pos, 22nat,
{
    let keyword = if is_const {
        TokenKindOf::Const
    } else {
        TokenKindOf::Let
    };
    let (start, p1, l1) = eat_soft(ts, pos, last, &keyword)?;
    let (mut d, p2, l2) = var_decl(ts, p1, l1, is_const)?;
    let (end, p3, l3) = eat_kind(ts, p2, l2, Expect::Semi)?;
    d.set_span(spanned(start, end));
    Ok((d, p3, l3))
}

/// A `return` statement.
fn ret(ts: &[Token], pos: usize, last: Span) -> (r: Result<(Syntax, usize, Span), Error>)
    requires
        pos <= ts@.len(),
    ensures
        syn_result(p_return(tokens_view(ts@), pos as int, last), r),
        r matches Ok((_, p, _)) ==> pos < p <= ts@.len(),
    decreases ts@.len() - pos, 21nat,
{
    let keyword = TokenKindOf::Return;
    let (start, p1, l1) = eat_soft(ts, pos, last, &keyword)?;
    let semi = TokenKindOf::Semi;
    if kind_at(ts, p1, &semi) {
        let (end, p2, l2) = eat_kind(ts, p1, l1, Expect::Semi)?;
        Ok((Syntax::Return { span: spanned(start, end), expr: None }, p2, l2))
    } else {
        let (e, p2, l2) = bin(ts, p1, l1, 0)?;
        let (end, p3, l3) = eat_kind(ts, p2, l2, Expect::Semi)?;
        Ok((Syntax::Return { span: spanned(start, end), expr: Some(Box::new(e)) }, p3, l3))
    }
}

/// An `if` or, where not `is_if`, a `while` statement.
fn cond(ts: &[Token], pos: usize, last: Span, is_if: bool) -> (r: Result<(Syntax, usize, Span), Error>)
    requires
        pos <= ts@.len(),
    ensures
        syn_result(p_cond(tokens_view(ts@), pos as int, last, is_if), r),
        r matches Ok((_, p, _)) ==> pos < p <= ts@.len(),
    decreases ts@.len() - pos, 22nat,
{
    let keyword = if is_if {
        TokenKindOf::If
    } else {
        TokenKindOf::While
    };
    let (start, p1, l1) = eat_soft(ts, pos, last, &keyword)?;
    let (c, p2, l2) = bin(ts, p1, l1, 0)?;
    let (b, p3, l3) = block(ts, p2, l2)?;
    let span = spanned(start, b.span());
    if is_if {
        Ok((Syntax::If { span, condition: Box::new(c), body: Box::new(b) }, p3, l3))
    } else {
        Ok((Syntax::While { span, condition: Box::new(c), body: Box::new(b) }, p3, l3))
    }
}

/// A block.
fn block(ts: &[Token], pos: usize, last: Span) -> (r: Result<(Syntax, usize, Span), Error>)
    requires
        pos <= ts@.len(),
    ensures
        syn_result(p_block(tokens_view(ts@), pos as int, last), r),
        r matches Ok((_, p, _)) ==> pos < p <= ts@.len(),
    decreases ts@.len() - pos, 22nat,
{
    let ghost tv = tokens_view(ts@);
    let (start, p1, l1) = eat_kind(ts, pos, last, Expect::OpenCurly)?;
    let mut children: Vec<Syntax> = Vec::new();
    let mut cur = p1;
    let mut cl = l1;
    let close = TokenKindOf::CloseCurly;
    assert(syntaxes_v(children@) =~= seq![]);
    while cur < ts.len() && !ts[cur].kind.same(&close)
        invariant
            tv == tokens_view(ts@),
            close@ == TokenKindOf::<Seq<u8>>::CloseCurly,
            pos < p1 <= cur <= ts@.len(),
            p_block(tv, pos as int, last) == block_finish(tv, start, p_block_loop(tv, cur as int, cl, syntaxes_v(children@))),
        decreases ts@.len() - cur,
    {
        let (c, pc, lc) = any(ts, cur, cl)?;
        proof {
            lemma_syntaxes_push(children@, c);
        }
        children.push(c);
        cur = pc;
        cl = lc;
    }
    let (end, p3, l3) = eat_kind(ts, cur, cl, Expect::CloseCurly)?;
    let ghost cv = syntaxes_v(children@);
    let b = Syntax::Block { span: spanned(start, end), children };
    assert(b.v() matches SyntaxV::Block { children: c, .. } && c =~= cv);
    Ok((b, p3, l3))
}

/// A block where the next token is `{`.
fn block_soft(ts: &[Token], pos: usize, last: Span) -> (r: Result<(Syntax, usize, Span), Error>)
    requires
        pos <= ts@.len(),
    ensures
        syn_result(p_block_soft(tokens_view(ts@), pos as int, last), r),
        r matches Ok((_, p, _)) ==> pos < p <= ts@.len(),
    decreases ts@.len() - pos, 23nat,
{
    let open = TokenKindOf::OpenCurly;
    if kind_at(ts, pos, &open) {
        block(ts, pos, last)
    } else {
        Err(Error::Recoverable(last))
    }
}

/// The outcome `p` of reading a signature matched by the result `r`.
pub open spec fn sig_result(
    p: Parsed<SigV>,
    r: Result<(Vec<u8>, Vec<ArgDecl>, bool, Option<(Span, Type)>, usize, Span), Error>,
) -> bool {
    match p {
        Parsed::Got(sg, q, l) => r matches Ok((n, a, v, t, m, k)) && n@ == sg.ident && arg_decls_v(a@)
            == sg.args && v == sg.variadic && t == sg.ret && m == q && k == l,
        _ => r matches Err(e) && stopped(p, e),
    }
}

/// The signature of a procedure after `fn`.
fn sig(ts: &[Token], pos: usize, last: Span) -> (r: Result<
    (Vec<u8>, Vec<ArgDecl>, bool, Option<(Span, Type)>, usize, Span),
    Error,
>)
    requires
        pos <= ts@.len(),
    ensures
        sig_result(p_sig(tokens_view(ts@), pos as int, last), r),
        r matches Ok((_, _, _, _, p, _)) ==> pos < p <= ts@.len(),
{
    let ghost tv = tokens_view(ts@);
    let (_, name, p1, l1) = eat_ident(ts, pos, last)?;
    let (_, p2, l2) = eat_kind(ts, p1, l1, Expect::OpenParen)?;
    let mut args: Vec<ArgDecl> = Vec::new();
    let mut variadic = false;
    let mut cur = p2;
    let mut cl = l2;
    let mut first = true;
    let close = TokenKindOf::CloseParen;
    let dots = TokenKindOf::Variadic;
    assert(arg_decls_v(args@) =~= seq![]);
    while cur < ts.len() && !ts[cur].kind.same(&close)
        invariant
            tv == tokens_view(ts@),
            close@ == TokenKindOf::<Seq<u8>>::CloseParen,
            dots@ == TokenKindOf::<Seq<u8>>::Variadic,
            !variadic,
            pos < p2 <= cur <= ts@.len(),
            p_sig(tv, pos as int, last) == sig_finish(tv, name@, p_sig_args(tv, cur as int, cl, arg_decls_v(args@), first)),
        decreases ts@.len() - cur,
    {
        let (p1, l1) = if first {
            (cur, cl)
        } else {
            let (_, p, l) = eat_kind(ts, cur, cl, Expect::Comma)?;
            (p, l)
        };
        match eat_soft(ts, p1, l1, &dots) {
            Ok((_, pv, lv)) => {
                let (_, p4, l4) = eat_kind(ts, pv, lv, Expect::CloseParen)?;
                let (ret, p5, l5) = ret_type(ts, p4, l4)?;
                return Ok((name, args, true, ret, p5, l5));
            },
            Err(_) => {},
        }
        let (start, arg_name, pa, la) = eat_ident(ts, p1, l1)?;
        let (_, pb, lb) = eat_kind(ts, pa, la, Expect::Colon)?;
        let (end, ty, pc, lc) = eat_ty(ts, pb, lb)?;
        let ghost before = arg_decls_v(args@);
        let a = ArgDeclOf { span: spanned(start, end), ident: arg_name, ty };
        args.push(a);
        assert(arg_decls_v(args@) =~= before.push(ArgDeclOf { span: a.span, ident: a.ident@, ty }));
        cur = pc;
        cl = lc;
        first = false;
    }
    let (_, p4, l4) = eat_kind(ts, cur, cl, Expect::CloseParen)?;
    let (ret, p5, l5) = ret_type(ts, p4, l4)?;
    Ok((name, args, variadic, ret, p5, l5))
}

/// The result type of a procedure, where `->` follows its arguments.
fn ret_type(ts: &[Token], pos: usize, last: Span) -> (r: Result<(Option<(Span, Type)>, usize, Span), Error>)
    requires
        pos <= ts@.len(),
    ensures
        match s_ret_type(tokens_view(ts@), pos as int, last) {
            Parsed::Got(t, q, l) => r matches Ok((x, m, k)) && x == t && m == q && k == l,
            other => r matches Err(e) && stopped(other, e),
        },
        r matches Ok((_, p, _)) ==> pos <= p <= ts@.len(),
{
    let arrow = TokenKindOf::Arrow;
    match eat_soft(ts, pos, last, &arrow) {
        Ok((_, p1, l1)) => {
            let (span, t, p2, l2) = eat_ty(ts, p1, l1)?;
            Ok((Some((span, t)), p2, l2))
        },
        Err(_) => Ok((None, pos, last)),
    }
}

/// A procedure, or where `is_extern` an `extern` procedure.
fn proc(ts: &[Token], pos: usize, last: Span, is_extern: bool) -> (r: Result<(Syntax, usize, Span), Error>)
    requires
        pos <= ts@.len(),
    ensures
        syn_result(p_proc(tokens_view(ts@), pos as int, last, is_extern), r),
        r matches Ok((_, p, _)) ==> pos < p <= ts@.len(),
    decreases ts@.len() - pos, 22nat,
{
    let keyword = if is_extern {
        TokenKindOf::Extern
    } else {
        TokenKindOf::Fn
    };
    let (start, p1, l1) = eat_soft(ts, pos, last, &keyword)?;
    let (name, args, variadic, ret, p3, l3) = if is_extern {
        let (_, p2, l2) = eat_kind(ts, p1, l1, Expect::Fn)?;
        sig(ts, p2, l2)?
    } else {
        sig(ts, p1, l1)?
    };
    if is_extern {
        let (end, p4, l4) = eat_kind(ts, p3, l3, Expect::Semi)?;
        Ok((Syntax::Proc { span: spanned(start, end), ident: name, args, variadic, ret, body: None }, p4, l4))
    } else {
        let (b, p4, l4) = block(ts, p3, l3)?;
        let span = spanned(start, b.span());
        Ok((Syntax::Proc { span, ident: name, args, variadic, ret, body: Some(Box::new(b)) }, p4, l4))
    }
}

/// A statement.
fn any(ts: &[Token], pos: usize, last: Span) -> (r: Result<(Syntax, usize, Span), Error>)
    requires
        pos <= ts@.len(),
    ensures
        syn_result(p_any(tokens_view(ts@), pos as int, last), r),
        r matches Ok((_, p, _)) ==> pos < p <= ts@.len(),
    decreases ts@.len() - pos, 24nat,
{
    match proc(ts, pos, last, false) {
        Err(Error::Recoverable(_)) => {},
        other => {
            return other;
        },
    }
    match proc(ts, pos, last, true) {
        Err(Error::Recoverable(_)) => {},
        other => {
            return other;
        },
    }
    match decl(ts, pos, last, true) {
        Err(Error::Recoverable(_)) => {},
        other => {
            return other;
        },
    }
    match decl(ts, pos, last, false) {
        Err(Error::Recoverable(_)) => {},
        other => {
            return other;
        },
    }
    match ret(ts, pos, last) {
        Err(Error::Recoverable(_)) => {},
        other => {
            return other;
        },
    }
    match cond(ts, pos, last, true) {
        Err(Error::Recoverable(_)) => {},
        other => {
            return other;
        },
    }
    match cond(ts, pos, last, false) {
        Err(Error::Recoverable(_)) => {},
        other => {
            return other;
        },
    }
    match block_soft(ts, pos, last) {
        Err(Error::Recoverable(_)) => {},
        other => {
            return other;
        },
    }
    match bin_stmt(ts, pos, last) {
        Err(Error::Recoverable(_)) => {},
        other => {
            return other;
        },
    }
    Err(Error::Cut(last.custom("How did you get here ;-)")))
}

/// Parses the tokens of a source file into its statements, or the first
/// error; a construct that starts nowhere is reported as a fault of the
/// parser.
pub fn parse_tokens(ts: &[Token]) -> (r: Result<Vec<Syntax>, crate::error::Error>)
    ensures
        match spec_parse_tokens(tokens_view(ts@)) {
            Ok(nodes) => r matches Ok(v) && syntaxes_v(v@) == nodes,
            Err(rep) => r matches Err(e) && reports(e, rep),
        },
{
    let ghost tv = tokens_view(ts@);
    let mut nodes: Vec<Syntax> = Vec::new();
    assert(syntaxes_v(nodes@) =~= seq![]);
    if ts.len() == 0 {
        return Ok(nodes);
    }
    let mut cur: usize = 0;
    let mut cl = ts[0].span;
    while cur < ts.len()
        invariant
            tv == tokens_view(ts@),
            ts@.len() > 0,
            0 <= cur <= ts@.len(),
            p_file(tv, 0, tv[0].span, seq![]) == p_file(tv, cur as int, cl, syntaxes_v(nodes@)),
        decreases ts@.len() - cur,
    {
        match any(ts, cur, cl) {
            Ok((n, p, l)) => {
                proof {
                    lemma_syntaxes_push(nodes@, n);
                }
                nodes.push(n);
                cur = p;
                cl = l;
            },
            Err(e) => {
                return Err(e.into_reportable_error());
            },
        }
    }
    Ok(nodes)
}

/// Parsing of one file's tokens.
#[verifier::opaque]
pub open spec fn parse_file(ts: Seq<TokenV>) -> Result<Seq<SyntaxV>, Report> {
    spec_parse_tokens(ts)
}

/// Parses the tokens of one file.
fn parse_file_tokens(ts: &Vec<Token>) -> (r: Result<Vec<Syntax>, crate::error::Error>)
    ensures
        match parse_file(tokens_view(ts@)) {
            Ok(nodes) => r matches Ok(v) && syntaxes_v(v@) == nodes,
            Err(rep) => r matches Err(e) && reports(e, rep),
        },
{
    proof {
        reveal(parse_file);
    }
    parse_tokens(ts.as_slice())
}

/// Parsing of several files' tokens, file after file: the nodes of each,
/// or what the first file that fails reports.
pub open spec fn spec_parse_files(files: Seq<Seq<TokenV>>) -> Result<Seq<Seq<SyntaxV>>, Report>
    decreases files.len(),
{
    if files.len() == 0 {
        Ok(seq![])
    } else {
        match spec_parse_files(files.drop_last()) {
            Ok(done) => match parse_file(files.last()) {
                Ok(nodes) => Ok(done.push(nodes)),
                Err(rep) => Err(rep),
            },
            Err(rep) => Err(rep),
        }
    }
}

/// The tokens of several files.
pub open spec fn files_tokens(files: Seq<Vec<Token>>) -> Seq<Seq<TokenV>> {
    files.map_values(|f: Vec<Token>| tokens_view(f@))
}

/// The nodes of several files.
pub open spec fn files_syntax(files: Seq<Vec<Syntax>>) -> Seq<Seq<SyntaxV>> {
    files.map_values(|f: Vec<Syntax>| syntaxes_v(f@))
}

/// Once parsing a prefix of the files fails, parsing every longer prefix
/// fails the same.
proof fn lemma_parse_files_stop(files: Seq<Seq<TokenV>>, i: int, j: int)
    requires
        0 <= i < j <= files.len(),
        spec_parse_files(files.subrange(0, i + 1)) is Err,
    ensures
        spec_parse_files(files.subrange(0, j)) == spec_parse_files(files.subrange(0, i + 1)),
    decreases j,
{
    if j > i + 1 {
        lemma_parse_files_stop(files, i, j - 1);
        assert(files.subrange(0, j).drop_last() =~= files.subrange(0, j - 1));
    }
}

/// Parses the tokens of every file, file after file.
pub fn parse_files(files: &Vec<Vec<Token>>) -> (r: Result<Vec<Vec<Syntax>>, crate::error::Error>)
    ensures
        match spec_parse_files(files_tokens(files@)) {
            Ok(nodes) => r matches Ok(v) && files_syntax(v@) == nodes,
            Err(rep) => r matches Err(e) && reports(e, rep),
        },
{
    let ghost ft = files_tokens(files@);
    let mut out: Vec<Vec<Syntax>> = Vec::new();
    assert(ft.subrange(0, 0) =~= Seq::<Seq<TokenV>>::empty());
    assert(files_syntax(out@) =~= Seq::<Seq<SyntaxV>>::empty());
    let mut i: usize = 0;
    while i < files.len()
        invariant
            0 <= i <= files@.len(),
            ft == files_tokens(files@),
            spec_parse_files(ft.subrange(0, i as int)) == Ok::<Seq<Seq<SyntaxV>>, Report>(
                files_syntax(out@),
            ),
        decreases files@.len() - i,
    {
        assert(ft.subrange(0, i + 1).drop_last() =~= ft.subrange(0, i as int));
        assert(ft.subrange(0, i + 1).last() == tokens_view(files@[i as int]@));
        match parse_file_tokens(&files[i]) {
            Ok(nodes) => {
                let ghost before = out@;
                out.push(nodes);
                assert(files_syntax(out@) =~= files_syntax(before).push(syntaxes_v(nodes@)));
            },
            Err(e) => {
                proof {
                    lemma_parse_files_stop(ft, i as int, files@.len() as int);
                    assert(ft.subrange(0, files@.len() as int) =~= ft);
                }
                return Err(e);
            },
        }
        i = i + 1;
    }
    assert(ft.subrange(0, files@.len() as int) =~= ft);
    Ok(out)
}

} // verus!
