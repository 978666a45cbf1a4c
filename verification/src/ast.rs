//! The syntax tree of the first version of the language.
//!
//! Each type that holds text or a list has a mathematical twin, named with a
//! `V` suffix, in which bytes are a `Seq<u8>` and lists are `Seq`s; the
//! `view` functions map a tree to its twin.
use crate::tokenize::Span;
use vstd::prelude::*;

verus! {

#[derive(Debug, Clone, Copy, PartialEq, Eq, Structural)]
pub enum BinOpKind {
    Add,
    Sub,
    Mul,
    Div,
    Mod,
    Eq,
    Ne,
    Gt,
    Ge,
    Lt,
    Le,
    And,
    Or,
    BitAnd,
    BitOr,
    Xor,
    Shr,
    Shl,
    Assign,
    AddAssign,
    SubAssign,
    MulAssign,
    DivAssign,
    ModAssign,
    BitAndAssign,
    BitOrAssign,
    XorAssign,
    ShlAssign,
    ShrAssign,
}

impl BinOpKind {
    /// The operator that a compound assignment applies: `a op= b` stores
    /// `a op b` into `a`. Other operators are their own.
    pub open spec fn plain_of(self) -> BinOpKind {
        match self {
            BinOpKind::AddAssign => BinOpKind::Add,
            BinOpKind::SubAssign => BinOpKind::Sub,
            BinOpKind::MulAssign => BinOpKind::Mul,
            BinOpKind::DivAssign => BinOpKind::Div,
            BinOpKind::ModAssign => BinOpKind::Mod,
            BinOpKind::BitAndAssign => BinOpKind::BitAnd,
            BinOpKind::BitOrAssign => BinOpKind::BitOr,
            BinOpKind::XorAssign => BinOpKind::Xor,
            BinOpKind::ShlAssign => BinOpKind::Shl,
            BinOpKind::ShrAssign => BinOpKind::Shr,
            other => other,
        }
    }

    /// Whether the operator is a compound assignment, `op=`.
    pub open spec fn is_compound(self) -> bool {
        self != BinOpKind::Assign && self != self.plain_of()
    }
}

#[derive(Debug, Clone, Copy, PartialEq, Eq, Structural)]
pub enum UnaryOpKind {
    Not,
}

#[derive(Debug, Clone, Copy, PartialEq, Eq, Structural)]
pub enum TypeKind {
    U64,
}

/// Size, alignment and shape of a value in memory.
#[derive(Debug, Clone, Copy, PartialEq, Eq, Structural)]
pub struct Layout {
    pub size: usize,
    pub align: usize,
    pub composite: bool,
}

#[derive(Debug, Clone, Copy, PartialEq, Eq, Structural)]
pub struct Type {
    pub kind: TypeKind,
    pub layout: Layout,
}

impl TypeKind {
    pub open spec fn spec_layout(self) -> Layout {
        match self {
            TypeKind::U64 => Layout { size: 8, align: 8, composite: false },
        }
    }

    /// The layout of a value of this kind.
    pub fn layout(&self) -> (r: Layout)
        ensures
            r == self.spec_layout(),
    {
        match self {
            TypeKind::U64 => Layout { size: 8, align: 8, composite: false },
        }
    }
}

impl Type {
    pub open spec fn spec_new(kind: TypeKind) -> Type {
        Type { kind, layout: kind.spec_layout() }
    }

    /// The type of the given kind, with its layout.
    pub fn new(kind: TypeKind) -> (r: Type)
        ensures
            r == Type::spec_new(kind),
    {
        Type { kind, layout: kind.layout() }
    }
}

#[derive(Debug, PartialEq, Eq)]
pub struct Ident {
    pub span: Span,
    pub value: Vec<u8>,
}

pub struct IdentV {
    pub span: Span,
    pub value: Seq<u8>,
}

impl View for Ident {
    type V = IdentV;

    open spec fn view(&self) -> IdentV {
        IdentV { span: self.span, value: self.value@ }
    }
}

#[derive(Debug, PartialEq, Eq)]
pub enum LiteralKind {
    Integer(u64),
    Str(Vec<u8>),
}

pub enum LiteralKindV {
    Integer(u64),
    Str(Seq<u8>),
}

impl View for LiteralKind {
    type V = LiteralKindV;

    open spec fn view(&self) -> LiteralKindV {
        match self {
            LiteralKind::Integer(n) => LiteralKindV::Integer(*n),
            LiteralKind::Str(s) => LiteralKindV::Str(s@),
        }
    }
}

#[derive(Debug, PartialEq, Eq)]
pub struct Literal {
    pub span: Span,
    pub kind: LiteralKind,
}

pub struct LiteralV {
    pub span: Span,
    pub kind: LiteralKindV,
}

impl View for Literal {
    type V = LiteralV;

    open spec fn view(&self) -> LiteralV {
        LiteralV { span: self.span, kind: self.kind@ }
    }
}

#[derive(Debug, PartialEq, Eq)]
pub struct BinOp {
    pub span: Span,
    pub kind: BinOpKind,
    pub lhs: Box<Expr>,
    pub rhs: Box<Expr>,
}

#[derive(Debug, PartialEq, Eq)]
pub struct UnaryOp {
    pub span: Span,
    pub kind: UnaryOpKind,
    pub expr: Box<Expr>,
}

#[derive(Debug, PartialEq, Eq)]
pub struct Declaration {
    pub span: Span,
    pub ident: Ident,
    pub ty: Option<Type>,
    pub rhs: Option<Box<Expr>>,
}

#[derive(Debug, PartialEq, Eq)]
pub struct Call {
    pub span: Span,
    pub ident: Ident,
    pub arguments: Vec<Expr>,
}

#[derive(Debug, PartialEq, Eq)]
pub enum Expr {
    Ident(Ident),
    Literal(Literal),
    BinOp(BinOp),
    UnaryOp(UnaryOp),
    Declaration(Declaration),
    Call(Call),
}

pub struct BinOpV {
    pub span: Span,
    pub kind: BinOpKind,
    pub lhs: Box<ExprV>,
    pub rhs: Box<ExprV>,
}

pub struct UnaryOpV {
    pub span: Span,
    pub kind: UnaryOpKind,
    pub expr: Box<ExprV>,
}

pub struct DeclarationV {
    pub span: Span,
    pub ident: IdentV,
    pub ty: Option<Type>,
    pub rhs: Option<Box<ExprV>>,
}

pub struct CallV {
    pub span: Span,
    pub ident: IdentV,
    pub arguments: Seq<ExprV>,
}

pub enum ExprV {
    Ident(IdentV),
    Literal(LiteralV),
    BinOp(BinOpV),
    UnaryOp(UnaryOpV),
    Declaration(DeclarationV),
    Call(CallV),
}

#[derive(Debug, PartialEq, Eq)]
pub struct Return {
    pub span: Span,
    pub expr: Option<Expr>,
}

#[derive(Debug, PartialEq, Eq)]
pub struct If {
    pub span: Span,
    pub condition: Expr,
    pub body: Block,
}

#[derive(Debug, PartialEq, Eq)]
pub struct While {
    pub span: Span,
    pub condition: Expr,
    pub body: Block,
}

#[derive(Debug, PartialEq, Eq)]
pub struct Block {
    pub span: Span,
    pub statements: Vec<Ast>,
}

#[derive(Debug, PartialEq, Eq)]
pub struct Func {
    pub span: Span,
    pub ident: Ident,
    pub arguments: Vec<Declaration>,
    pub returns: Vec<Declaration>,
    pub body: Block,
    pub variadic: bool,
}

#[derive(Debug, PartialEq, Eq)]
pub enum Ast {
    Func(Func),
    Block(Block),
    Expr(Expr),
    Return(Return),
    If(If),
    While(While),
}

pub struct ReturnV {
    pub span: Span,
    pub expr: Option<ExprV>,
}

pub struct IfV {
    pub span: Span,
    pub condition: ExprV,
    pub body: BlockV,
}

pub struct WhileV {
    pub span: Span,
    pub condition: ExprV,
    pub body: BlockV,
}

pub struct BlockV {
    pub span: Span,
    pub statements: Seq<AstV>,
}

pub struct FuncV {
    pub span: Span,
    pub ident: IdentV,
    pub arguments: Seq<DeclarationV>,
    pub returns: Seq<DeclarationV>,
    pub body: BlockV,
    pub variadic: bool,
}

pub enum AstV {
    Func(FuncV),
    Block(BlockV),
    Expr(ExprV),
    Return(ReturnV),
    If(IfV),
    While(WhileV),
}

/// The value of an expression.
pub open spec fn expr_v(e: Expr) -> ExprV
    decreases e,
{
    match e {
        Expr::Ident(i) => ExprV::Ident(i@),
        Expr::Literal(l) => ExprV::Literal(l@),
        Expr::BinOp(b) => ExprV::BinOp(
            BinOpV {
                span: b.span,
                kind: b.kind,
                lhs: Box::new(expr_v(*b.lhs)),
                rhs: Box::new(expr_v(*b.rhs)),
            },
        ),
        Expr::UnaryOp(u) => ExprV::UnaryOp(
            UnaryOpV { span: u.span, kind: u.kind, expr: Box::new(expr_v(*u.expr)) },
        ),
        Expr::Declaration(d) => ExprV::Declaration(
            DeclarationV {
                span: d.span,
                ident: d.ident@,
                ty: d.ty,
                rhs: match d.rhs {
                    Some(r) => Some(Box::new(expr_v(*r))),
                    None => None,
                },
            },
        ),
        Expr::Call(c) => ExprV::Call(
            CallV {
                span: c.span,
                ident: c.ident@,
                arguments: Seq::new(
                    c.arguments@.len(),
                    |i: int|
                        if 0 <= i < c.arguments@.len() {
                            expr_v(c.arguments@[i])
                        } else {
                            ExprV::Ident(IdentV { span: Span { start: 0, end: 0 }, value: seq![] })
                        },
                ),
            },
        ),
    }
}

/// The values of a list of expressions.
pub open spec fn exprs_v(es: Seq<Expr>) -> Seq<ExprV> {
    es.map_values(|e: Expr| expr_v(e))
}

/// The value of a declaration.
pub open spec fn decl_v(d: Declaration) -> DeclarationV {
    DeclarationV {
        span: d.span,
        ident: d.ident@,
        ty: d.ty,
        rhs: match d.rhs {
            Some(r) => Some(Box::new(expr_v(*r))),
            None => None,
        },
    }
}

/// The values of a list of declarations.
pub open spec fn decls_v(ds: Seq<Declaration>) -> Seq<DeclarationV> {
    ds.map_values(|d: Declaration| decl_v(d))
}

/// The value of a statement.
pub open spec fn ast_v(a: Ast) -> AstV
    decreases a,
{
    match a {
        Ast::Func(f) => AstV::Func(
            FuncV {
                span: f.span,
                ident: f.ident@,
                arguments: decls_v(f.arguments@),
                returns: decls_v(f.returns@),
                body: block_v(f.body),
                variadic: f.variadic,
            },
        ),
        Ast::Block(b) => AstV::Block(block_v(b)),
        Ast::Expr(e) => AstV::Expr(expr_v(e)),
        Ast::Return(r) => AstV::Return(
            ReturnV {
                span: r.span,
                expr: match r.expr {
                    Some(e) => Some(expr_v(e)),
                    None => None,
                },
            },
        ),
        Ast::If(i) => AstV::If(
            IfV { span: i.span, condition: expr_v(i.condition), body: block_v(i.body) },
        ),
        Ast::While(w) => AstV::While(
            WhileV { span: w.span, condition: expr_v(w.condition), body: block_v(w.body) },
        ),
    }
}

/// The value of a block.
pub open spec fn block_v(b: Block) -> BlockV
    decreases b,
{
    BlockV {
        span: b.span,
        statements: Seq::new(
            b.statements@.len(),
            |i: int|
                if 0 <= i < b.statements@.len() {
                    ast_v(b.statements@[i])
                } else {
                    AstV::Block(BlockV { span: b.span, statements: seq![] })
                },
        ),
    }
}

/// The values of a list of statements.
pub open spec fn asts_v(asts: Seq<Ast>) -> Seq<AstV> {
    asts.map_values(|a: Ast| ast_v(a))
}

/// The value of a function definition.
pub open spec fn func_v(f: Func) -> FuncV {
    FuncV {
        span: f.span,
        ident: f.ident@,
        arguments: decls_v(f.arguments@),
        returns: decls_v(f.returns@),
        body: block_v(f.body),
        variadic: f.variadic,
    }
}

/// The value of a binary operation.
pub open spec fn binop_v(b: BinOp) -> BinOpV {
    expr_v(Expr::BinOp(b))->BinOp_0
}

/// The value of a call.
pub open spec fn call_v(c: Call) -> CallV {
    expr_v(Expr::Call(c))->Call_0
}

/// The value of a `return` statement.
pub open spec fn return_v(r: Return) -> ReturnV {
    ast_v(Ast::Return(r))->Return_0
}

/// The value of an `if` statement.
pub open spec fn if_v(i: If) -> IfV {
    ast_v(Ast::If(i))->If_0
}

/// The value of a `while` statement.
pub open spec fn while_v(w: While) -> WhileV {
    ast_v(Ast::While(w))->While_0
}

/// The span of an expression.
pub open spec fn expr_span(e: ExprV) -> Span {
    match e {
        ExprV::Ident(i) => i.span,
        ExprV::Literal(l) => l.span,
        ExprV::BinOp(b) => b.span,
        ExprV::UnaryOp(u) => u.span,
        ExprV::Declaration(d) => d.span,
        ExprV::Call(c) => c.span,
    }
}

/// The span of a statement.
pub open spec fn ast_span(a: AstV) -> Span {
    match a {
        AstV::Func(f) => f.span,
        AstV::Block(b) => b.span,
        AstV::Expr(e) => expr_span(e),
        AstV::Return(r) => r.span,
        AstV::If(i) => i.span,
        AstV::While(w) => w.span,
    }
}

impl Expr {
    /// Where the expression stands in the source.
    pub fn span(&self) -> (r: Span)
        ensures
            r == expr_span(expr_v(*self)),
    {
        match self {
            Expr::Ident(i) => i.span,
            Expr::Literal(l) => l.span,
            Expr::BinOp(b) => b.span,
            Expr::UnaryOp(u) => u.span,
            Expr::Declaration(d) => d.span,
            Expr::Call(c) => c.span,
        }
    }
}

impl Ast {
    /// Where the statement stands in the source.
    pub fn span(&self) -> (r: Span)
        ensures
            r == ast_span(ast_v(*self)),
    {
        match self {
            Ast::Func(f) => f.span,
            Ast::Block(b) => b.span,
            Ast::Expr(e) => e.span(),
            Ast::Return(r) => r.span,
            Ast::If(i) => i.span,
            Ast::While(w) => w.span,
        }
    }
}

} // verus!
