//! Lowering of the syntax tree to a linear intermediate representation with
//! numbered stack slots and textual labels.
use crate::ast::{
    ast_span, ast_v, asts_v, binop_v, block_v, call_v, expr_span, expr_v, func_v, if_v, return_v, while_v, Ast, AstV, BinOp, BinOpKind,
    BinOpV, Block, BlockV, Call, CallV, Declaration, DeclarationV, Expr, ExprV, Func, FuncV,
    Ident, IdentV, If, IfV, Layout, LiteralKind, LiteralKindV, Return, ReturnV, TypeKind, UnaryOp,
    UnaryOpKind, While, WhileV,
};
use crate::text::{lemma_ascii_bytes, bytes, bytes_eq, copy_bytes, decimal, digit, push_bytes, push_decimal, push_str};
use crate::tokenize::Span;
use vstd::prelude::*;

verus! {

/// What went wrong while lowering.
#[derive(Debug, PartialEq, Eq)]
pub enum ErrorKindOf<S> {
    GlobalScope,
    UnknownType,
    Undefined { ident: S },
    ExpectedRValue,
    ExpectedLValue,
    ReturnMismatch { expected: usize, got: usize },
    ArgumentMismatch { expected: usize, got: usize },
}

#[derive(Debug, PartialEq, Eq)]
pub struct ErrorOf<S> {
    pub kind: ErrorKindOf<S>,
    pub span: Span,
}

pub type ErrorKind = ErrorKindOf<Vec<u8>>;

pub type Error = ErrorOf<Vec<u8>>;

pub type ErrorV = ErrorOf<Seq<u8>>;

impl View for ErrorOf<Vec<u8>> {
    type V = ErrorOf<Seq<u8>>;

    open spec fn view(&self) -> ErrorOf<Seq<u8>> {
        ErrorOf {
            kind: match self.kind {
                ErrorKindOf::GlobalScope => ErrorKindOf::GlobalScope,
                ErrorKindOf::UnknownType => ErrorKindOf::UnknownType,
                ErrorKindOf::Undefined { ident } => ErrorKindOf::Undefined { ident: ident@ },
                ErrorKindOf::ExpectedRValue => ErrorKindOf::ExpectedRValue,
                ErrorKindOf::ExpectedLValue => ErrorKindOf::ExpectedLValue,
                ErrorKindOf::ReturnMismatch { expected, got } => ErrorKindOf::ReturnMismatch {
                    expected,
                    got,
                },
                ErrorKindOf::ArgumentMismatch { expected, got } => ErrorKindOf::ArgumentMismatch {
                    expected,
                    got,
                },
            },
            span: self.span,
        }
    }
}

/// Static data referred to by the code.
#[derive(Debug, PartialEq, Eq)]
pub enum Data {
    Str(Vec<u8>),
}

pub enum DataV {
    Str(Seq<u8>),
}

impl View for Data {
    type V = DataV;

    open spec fn view(&self) -> DataV {
        match self {
            Data::Str(s) => DataV::Str(s@),
        }
    }
}

/// An operand: a stack slot, an integer, or static data.
#[derive(Debug, PartialEq, Eq)]
pub enum ArgOf<D> {
    Var(usize),
    Lit(u64),
    Data(D),
}

pub type Arg = ArgOf<Data>;

pub type ArgV = ArgOf<DataV>;

impl View for ArgOf<Data> {
    type V = ArgOf<DataV>;

    open spec fn view(&self) -> ArgOf<DataV> {
        match self {
            ArgOf::Var(i) => ArgOf::Var(*i),
            ArgOf::Lit(n) => ArgOf::Lit(*n),
            ArgOf::Data(d) => ArgOf::Data(d@),
        }
    }
}

impl ArgOf<Data> {
    /// A copy of the operand.
    pub fn copy(&self) -> (r: Arg)
        ensures
            r@ == self@,
    {
        match self {
            ArgOf::Var(i) => ArgOf::Var(*i),
            ArgOf::Lit(n) => ArgOf::Lit(*n),
            ArgOf::Data(Data::Str(s)) => ArgOf::Data(Data::Str(copy_bytes(s))),
        }
    }
}

#[derive(Debug, Clone, Copy, PartialEq, Eq, Structural)]
pub enum IrBinOpKind {
    Add,
    Sub,
    Mul,
    Div,
    Mod,
    Eq,
    Ne,
    Gt,
    Ge,
    Lt,
    Le,
    BitAnd,
    BitOr,
    Xor,
    Shr,
    Shl,
}

/// A stack slot: its offset below the frame pointer and its layout.
#[derive(Debug, Clone, Copy, PartialEq, Eq, Structural)]
pub struct StackSlot {
    pub aligned_offset: usize,
    pub layout: Layout,
}

/// One instruction of the intermediate representation.
#[derive(Debug, PartialEq, Eq)]
pub enum Ir {
    Store { dst: Arg, src: Arg },
    Unary { dst: Arg, src: Arg, una: UnaryOpKind },
    Bin { dst: Arg, lhs: Arg, rhs: Arg, bin: IrBinOpKind },
    Label { label: Vec<u8> },
    Jump { label: Vec<u8> },
    JumpZero { label: Vec<u8>, arg: Arg },
    JumpNotZero { label: Vec<u8>, arg: Arg },
    Allocate { size: usize, slots: Vec<StackSlot> },
    LoadArguments { arguments: Vec<(Arg, Layout)> },
    Call { symbol: Vec<u8>, named: usize, arguments: Vec<(Arg, Layout)>, results: Vec<(Arg, Layout)> },
    Return { results: Vec<(Arg, Layout)>, deallocate: usize },
}

pub enum IrV {
    Store { dst: ArgV, src: ArgV },
    Unary { dst: ArgV, src: ArgV, una: UnaryOpKind },
    Bin { dst: ArgV, lhs: ArgV, rhs: ArgV, bin: IrBinOpKind },
    Label { label: Seq<u8> },
    Jump { label: Seq<u8> },
    JumpZero { label: Seq<u8>, arg: ArgV },
    JumpNotZero { label: Seq<u8>, arg: ArgV },
    Allocate { size: usize, slots: Seq<StackSlot> },
    LoadArguments { arguments: Seq<(ArgV, Layout)> },
    Call { symbol: Seq<u8>, named: usize, arguments: Seq<(ArgV, Layout)>, results: Seq<(ArgV, Layout)> },
    Return { results: Seq<(ArgV, Layout)>, deallocate: usize },
}

/// The values of operand and layout pairs.
pub open spec fn pairs_v(s: Seq<(Arg, Layout)>) -> Seq<(ArgV, Layout)> {
    s.map_values(|p: (Arg, Layout)| (p.0@, p.1))
}

/// The value of an instruction.
pub open spec fn ir_v(i: Ir) -> IrV {
    match i {
        Ir::Store { dst, src } => IrV::Store { dst: dst@, src: src@ },
        Ir::Unary { dst, src, una } => IrV::Unary { dst: dst@, src: src@, una },
        Ir::Bin { dst, lhs, rhs, bin } => IrV::Bin { dst: dst@, lhs: lhs@, rhs: rhs@, bin },
        Ir::Label { label } => IrV::Label { label: label@ },
        Ir::Jump { label } => IrV::Jump { label: label@ },
        Ir::JumpZero { label, arg } => IrV::JumpZero { label: label@, arg: arg@ },
        Ir::JumpNotZero { label, arg } => IrV::JumpNotZero { label: label@, arg: arg@ },
        Ir::Allocate { size, slots } => IrV::Allocate { size, slots: slots@ },
        Ir::LoadArguments { arguments } => IrV::LoadArguments { arguments: pairs_v(arguments@) },
        Ir::Call { symbol, named, arguments, results } => IrV::Call {
            symbol: symbol@,
            named,
            arguments: pairs_v(arguments@),
            results: pairs_v(results@),
        },
        Ir::Return { results, deallocate } => IrV::Return { results: pairs_v(results@), deallocate },
    }
}

/// The values of a sequence of instructions.
pub open spec fn irs_v(s: Seq<Ir>) -> Seq<IrV> {
    s.map_values(|i: Ir| ir_v(i))
}

impl IrBinOpKind {
    pub open spec fn spec_from_ast(kind: BinOpKind) -> IrBinOpKind {
        match kind {
            BinOpKind::Add => IrBinOpKind::Add,
            BinOpKind::Sub => IrBinOpKind::Sub,
            BinOpKind::Mul => IrBinOpKind::Mul,
            BinOpKind::Div => IrBinOpKind::Div,
            BinOpKind::Mod => IrBinOpKind::Mod,
            BinOpKind::Eq => IrBinOpKind::Eq,
            BinOpKind::Ne => IrBinOpKind::Ne,
            BinOpKind::Gt => IrBinOpKind::Gt,
            BinOpKind::Ge => IrBinOpKind::Ge,
            BinOpKind::Lt => IrBinOpKind::Lt,
            BinOpKind::Le => IrBinOpKind::Le,
            BinOpKind::BitAnd => IrBinOpKind::BitAnd,
            BinOpKind::BitOr => IrBinOpKind::BitOr,
            BinOpKind::Xor => IrBinOpKind::Xor,
            BinOpKind::Shr => IrBinOpKind::Shr,
            _ => IrBinOpKind::Shl,
        }
    }

    /// Whether the syntax-tree operator is computed by one instruction.
    pub open spec fn is_plain(kind: BinOpKind) -> bool {
        match kind {
            BinOpKind::Add | BinOpKind::Sub | BinOpKind::Mul | BinOpKind::Div | BinOpKind::Mod
            | BinOpKind::Eq | BinOpKind::Ne | BinOpKind::Gt | BinOpKind::Ge | BinOpKind::Lt
            | BinOpKind::Le | BinOpKind::BitAnd | BinOpKind::BitOr | BinOpKind::Xor
            | BinOpKind::Shr | BinOpKind::Shl => true,
            _ => false,
        }
    }

    /// The instruction operator of a syntax-tree operator that has one.
    pub fn expect_from_ast_bin_op_kind(kind: BinOpKind) -> (r: IrBinOpKind)
        requires
            IrBinOpKind::is_plain(kind),
        ensures
            r == IrBinOpKind::spec_from_ast(kind),
    {
        match kind {
            BinOpKind::Add => IrBinOpKind::Add,
            BinOpKind::Sub => IrBinOpKind::Sub,
            BinOpKind::Mul => IrBinOpKind::Mul,
            BinOpKind::Div => IrBinOpKind::Div,
            BinOpKind::Mod => IrBinOpKind::Mod,
            BinOpKind::Eq => IrBinOpKind::Eq,
            BinOpKind::Ne => IrBinOpKind::Ne,
            BinOpKind::Gt => IrBinOpKind::Gt,
            BinOpKind::Ge => IrBinOpKind::Ge,
            BinOpKind::Lt => IrBinOpKind::Lt,
            BinOpKind::Le => IrBinOpKind::Le,
            BinOpKind::BitAnd => IrBinOpKind::BitAnd,
            BinOpKind::BitOr => IrBinOpKind::BitOr,
            BinOpKind::Xor => IrBinOpKind::Xor,
            BinOpKind::Shr => IrBinOpKind::Shr,
            _ => IrBinOpKind::Shl,
        }
    }

    /// The operator that a compound assignment applies.
    pub open spec fn spec_from_assign(kind: BinOpKind) -> IrBinOpKind {
        match kind {
            BinOpKind::AddAssign => IrBinOpKind::Add,
            BinOpKind::SubAssign => IrBinOpKind::Sub,
            BinOpKind::MulAssign => IrBinOpKind::Mul,
            BinOpKind::DivAssign => IrBinOpKind::Div,
            BinOpKind::ModAssign => IrBinOpKind::Mod,
            BinOpKind::BitAndAssign => IrBinOpKind::BitAnd,
            BinOpKind::BitOrAssign => IrBinOpKind::BitOr,
            BinOpKind::XorAssign => IrBinOpKind::Xor,
            BinOpKind::ShlAssign => IrBinOpKind::Shl,
            _ => IrBinOpKind::Shr,
        }
    }
}

/// Plain operators lower to different instruction operators, and a
/// compound assignment `x op= y` applies the instruction operator that
/// `x op y` lowers to.
pub proof fn law_compound_assignment_operator(a: BinOpKind, b: BinOpKind)
    ensures
        IrBinOpKind::is_plain(a) && IrBinOpKind::is_plain(b) && a != b ==> IrBinOpKind::spec_from_ast(a)
            != IrBinOpKind::spec_from_ast(b),
        a.is_compound() ==> IrBinOpKind::is_plain(a.plain_of()),
        a.is_compound() ==> IrBinOpKind::spec_from_assign(a) == IrBinOpKind::spec_from_ast(a.plain_of()),
{
}

/// The state that lowering threads through: the stack slots of the current
/// function, its named variables, the label counter and the instructions.
pub struct GenV {
    pub vars: Seq<StackSlot>,
    pub names: Seq<(Seq<u8>, usize)>,
    pub unique: usize,
    pub ir: Seq<IrV>,
}

/// The message of a lowering error.
pub open spec fn ir_message(e: ErrorV) -> Seq<u8> {
    match e.kind {
        ErrorKindOf::GlobalScope => bytes("Expression can not be defined in the global scope"),
        ErrorKindOf::UnknownType => bytes("Can not infer the type"),
        ErrorKindOf::Undefined { ident } => bytes("`") + ident + bytes("` is undefined"),
        ErrorKindOf::ExpectedRValue => bytes("This expression does not produce a value"),
        ErrorKindOf::ExpectedLValue => bytes("This expression can not be assigned"),
        ErrorKindOf::ReturnMismatch { expected, got } => bytes("Expected function to return ")
            + decimal(expected as nat) + bytes(" values, not ") + decimal(got as nat),
        ErrorKindOf::ArgumentMismatch { expected, got } => bytes("Expected ") + decimal(
            expected as nat,
        ) + bytes(" arguments, got ") + decimal(got as nat),
    }
}

impl ErrorOf<Vec<u8>> {
    /// The message of the error.
    pub fn message(&self) -> (r: Vec<u8>)
        ensures
            r@ == ir_message(self@),
    {
        let mut out: Vec<u8> = Vec::new();
        match &self.kind {
            ErrorKindOf::GlobalScope => push_str(&mut out, "Expression can not be defined in the global scope"),
            ErrorKindOf::UnknownType => push_str(&mut out, "Can not infer the type"),
            ErrorKindOf::Undefined { ident } => {
                push_str(&mut out, "`");
                push_bytes(&mut out, ident);
                push_str(&mut out, "` is undefined");
            },
            ErrorKindOf::ExpectedRValue => push_str(&mut out, "This expression does not produce a value"),
            ErrorKindOf::ExpectedLValue => push_str(&mut out, "This expression can not be assigned"),
            ErrorKindOf::ReturnMismatch { expected, got } => {
                push_str(&mut out, "Expected function to return ");
                push_decimal(&mut out, *expected as u64);
                push_str(&mut out, " values, not ");
                push_decimal(&mut out, *got as u64);
            },
            ErrorKindOf::ArgumentMismatch { expected, got } => {
                push_str(&mut out, "Expected ");
                push_decimal(&mut out, *expected as u64);
                push_str(&mut out, " arguments, got ");
                push_decimal(&mut out, *got as u64);
            },
        }
        assert(out@ =~= ir_message(self@));
        out
    }
}

/// What lowering reads: the label prefix of the current function, all
/// functions, and the slots of the current function's results.
pub struct Ctx {
    pub prefix: Seq<u8>,
    pub funcs: Seq<FuncV>,
    pub rets: Seq<(ArgV, Layout)>,
}

/// The outcome of a lowering step.
pub enum Lowered<T> {
    Val(GenV, T),
    Error(ErrorV),
    Panics,
}

/// The layout every lowered temporary has.
pub open spec fn u64_layout() -> Layout {
    TypeKind::U64.spec_layout()
}

/// `x` rounded up to a multiple of `m`.
pub open spec fn round_up(x: int, m: int) -> int {
    if x % m == 0 {
        x
    } else {
        x + (m - x % m)
    }
}

/// A new stack slot of the given layout after the last one, or `None` where
/// the offset arithmetic panics.
pub open spec fn slot_alloc(vars: Seq<StackSlot>, layout: Layout) -> Option<(Seq<StackSlot>, ArgV)> {
    let len = vars.len();
    if len == 0 {
        Some((vars.push(StackSlot { aligned_offset: 0, layout }), ArgOf::Var(0)))
    } else {
        let last = vars.last();
        let end = last.aligned_offset + last.layout.size;
        if end > usize::MAX || layout.align == 0 || round_up(end, layout.align as int) > usize::MAX
            || len > usize::MAX {
            None
        } else {
            Some(
                (
                    vars.push(
                        StackSlot { aligned_offset: round_up(end, layout.align as int) as usize, layout },
                    ),
                    ArgOf::Var(len as usize),
                ),
            )
        }
    }
}

/// `slot_alloc` on the state.
pub open spec fn s_allocate(g: GenV, layout: Layout) -> Option<(GenV, ArgV)> {
    match slot_alloc(g.vars, layout) {
        None => None,
        Some((vars, a)) => Some((GenV { vars, ..g }, a)),
    }
}

/// The slot of the variable of this name.
pub open spec fn lookup_name(names: Seq<(Seq<u8>, usize)>, name: Seq<u8>) -> Option<usize>
    decreases names.len(),
{
    if names.len() == 0 {
        None
    } else if names.last().0 == name {
        Some(names.last().1)
    } else {
        lookup_name(names.drop_last(), name)
    }
}

/// A slot for a named variable; a name that has one already panics.
pub open spec fn s_allocate_var(g: GenV, name: Seq<u8>, layout: Layout) -> Option<(GenV, ArgV)> {
    match s_allocate(g, layout) {
        None => None,
        Some((g2, a)) => if lookup_name(g2.names, name) is Some {
            None
        } else {
            Some((GenV { names: g2.names.push((name, a->Var_0)), ..g2 }, a))
        },
    }
}

/// The slot of a named variable, or the error that it is undefined.
pub open spec fn s_var(g: GenV, ident: IdentV) -> Result<ArgV, ErrorV> {
    match lookup_name(g.names, ident.value) {
        Some(i) => Ok(ArgOf::Var(i)),
        None => Err(
            ErrorOf { kind: ErrorKindOf::Undefined { ident: ident.value }, span: ident.span },
        ),
    }
}

/// A fresh label `<prefix>_<name><n>`.
pub open spec fn s_label(g: GenV, prefix: Seq<u8>, name: &str) -> Option<(GenV, Seq<u8>)> {
    if g.unique == usize::MAX {
        None
    } else {
        Some(
            (
                GenV { unique: (g.unique + 1) as usize, ..g },
                prefix + bytes("_") + bytes(name) + decimal(g.unique as nat),
            ),
        )
    }
}

pub open spec fn prelude_label(prefix: Seq<u8>) -> Seq<u8> {
    prefix + bytes("_prelude")
}

pub open spec fn body_label(prefix: Seq<u8>) -> Seq<u8> {
    prefix + bytes("_body")
}

pub open spec fn epilogue_label(prefix: Seq<u8>) -> Seq<u8> {
    prefix + bytes("_epilogue")
}

/// `g` with `i` appended.
pub open spec fn emit(g: GenV, i: IrV) -> GenV {
    GenV { ir: g.ir.push(i), ..g }
}

/// The last function of this name.
pub open spec fn lookup_func(funcs: Seq<FuncV>, name: Seq<u8>) -> Option<FuncV>
    decreases funcs.len(),
{
    if funcs.len() == 0 {
        None
    } else if funcs.last().ident.value == name {
        Some(funcs.last())
    } else {
        lookup_func(funcs.drop_last(), name)
    }
}

/// The function definitions among the statements.
pub open spec fn funcs_of(tree: Seq<AstV>) -> Seq<FuncV>
    decreases tree.len(),
{
    if tree.len() == 0 {
        seq![]
    } else {
        match tree.last() {
            AstV::Func(f) => funcs_of(tree.drop_last()).push(f),
            _ => funcs_of(tree.drop_last()),
        }
    }
}

/// The symbol a call refers to.
pub open spec fn symbol_of(name: Seq<u8>) -> Seq<u8> {
    if name == bytes("printf") {
        bytes("_printf")
    } else if name == bytes("exit") {
        bytes("_exit")
    } else {
        name
    }
}

/// Lowers an expression whose value is used.
pub open spec fn g_rvalue(ctx: Ctx, g: GenV, e: ExprV) -> Lowered<ArgV>
    decreases e, 0int,
{
    match e {
        ExprV::Ident(i) => match s_var(g, i) {
            Ok(a) => Lowered::Val(g, a),
            Err(x) => Lowered::Error(x),
        },
        ExprV::Literal(l) => match l.kind {
            LiteralKindV::Integer(n) => Lowered::Val(g, ArgOf::Lit(n)),
            LiteralKindV::Str(s) => Lowered::Val(g, ArgOf::Data(DataV::Str(s))),
        },
        ExprV::BinOp(b) => g_bin_op(ctx, g, b),
        ExprV::UnaryOp(u) => match s_allocate(g, u64_layout()) {
            None => Lowered::Panics,
            Some((g1, dst)) => match g_rvalue(ctx, g1, *u.expr) {
                Lowered::Val(g2, src) => Lowered::Val(
                    emit(g2, IrV::Unary { dst, src, una: u.kind }),
                    dst,
                ),
                Lowered::Error(x) => Lowered::Error(x),
                Lowered::Panics => Lowered::Panics,
            },
        },
        ExprV::Declaration(d) => Lowered::Error(
            ErrorOf { kind: ErrorKindOf::ExpectedRValue, span: d.span },
        ),
        ExprV::Call(c) => match s_allocate(g, u64_layout()) {
            None => Lowered::Panics,
            Some((g1, dst)) => match g_call(ctx, g1, c, seq![(dst, u64_layout())]) {
                Lowered::Val(g2, _) => Lowered::Val(g2, dst),
                Lowered::Error(x) => Lowered::Error(x),
                Lowered::Panics => Lowered::Panics,
            },
        },
    }
}

/// Lowers an expression that is assigned to.
pub open spec fn g_lvalue(g: GenV, e: ExprV) -> Lowered<ArgV> {
    match e {
        ExprV::Ident(i) => match s_var(g, i) {
            Ok(a) => Lowered::Val(g, a),
            Err(x) => Lowered::Error(x),
        },
        _ => Lowered::Error(ErrorOf { kind: ErrorKindOf::ExpectedLValue, span: expr_span(e) }),
    }
}

/// Lowers a binary operation.
pub open spec fn g_bin_op(ctx: Ctx, g: GenV, b: BinOpV) -> Lowered<ArgV>
    decreases b, 0int,
{
    match b.kind {
        BinOpKind::And | BinOpKind::Or => match s_allocate(g, u64_layout()) {
            None => Lowered::Panics,
            Some((g1, dst)) => match s_label(
                g1,
                ctx.prefix,
                if b.kind is And {
                    "and_skip"
                } else {
                    "or_skip"
                },
            ) {
                None => Lowered::Panics,
                Some((g2, skip)) => match g_rvalue(ctx, g2, *b.lhs) {
                    Lowered::Val(g3, lhs) => {
                        let g4 = emit(
                            emit(g3, IrV::Store { dst, src: lhs }),
                            if b.kind is And {
                                IrV::JumpZero { label: skip, arg: lhs }
                            } else {
                                IrV::JumpNotZero { label: skip, arg: lhs }
                            },
                        );
                        match g_rvalue(ctx, g4, *b.rhs) {
                            Lowered::Val(g5, rhs) => Lowered::Val(
                                emit(emit(g5, IrV::Store { dst, src: rhs }), IrV::Label { label: skip }),
                                dst,
                            ),
                            Lowered::Error(x) => Lowered::Error(x),
                            Lowered::Panics => Lowered::Panics,
                        }
                    },
                    Lowered::Error(x) => Lowered::Error(x),
                    Lowered::Panics => Lowered::Panics,
                },
            },
        },
        BinOpKind::Assign | BinOpKind::AddAssign | BinOpKind::SubAssign | BinOpKind::MulAssign
        | BinOpKind::DivAssign | BinOpKind::ModAssign | BinOpKind::BitAndAssign
        | BinOpKind::BitOrAssign | BinOpKind::XorAssign | BinOpKind::ShlAssign
        | BinOpKind::ShrAssign => match g_lvalue(g, *b.lhs) {
            Lowered::Val(g1, lhs) => match g_rvalue(ctx, g1, *b.rhs) {
                Lowered::Val(g2, rhs) => if b.kind is Assign {
                    Lowered::Val(emit(g2, IrV::Store { dst: lhs, src: rhs }), lhs)
                } else {
                    Lowered::Val(
                        emit(
                            g2,
                            IrV::Bin { dst: lhs, lhs, rhs, bin: IrBinOpKind::spec_from_assign(b.kind) },
                        ),
                        lhs,
                    )
                },
                Lowered::Error(x) => Lowered::Error(x),
                Lowered::Panics => Lowered::Panics,
            },
            Lowered::Error(x) => Lowered::Error(x),
            Lowered::Panics => Lowered::Panics,
        },
        _ => match g_rvalue(ctx, g, *b.lhs) {
            Lowered::Val(g1, lhs) => match g_rvalue(ctx, g1, *b.rhs) {
                Lowered::Val(g2, rhs) => match s_allocate(g2, u64_layout()) {
                    None => Lowered::Panics,
                    Some((g3, dst)) => Lowered::Val(
                        emit(
                            g3,
                            IrV::Bin { dst, lhs, rhs, bin: IrBinOpKind::spec_from_ast(b.kind) },
                        ),
                        dst,
                    ),
                },
                Lowered::Error(x) => Lowered::Error(x),
                Lowered::Panics => Lowered::Panics,
            },
            Lowered::Error(x) => Lowered::Error(x),
            Lowered::Panics => Lowered::Panics,
        },
    }
}

/// Lowers a call whose results go to `results`.
pub open spec fn g_call(ctx: Ctx, g: GenV, c: CallV, results: Seq<(ArgV, Layout)>) -> Lowered<()>
    decreases c, c.arguments.len() + 1,
{
    match lookup_func(ctx.funcs, c.ident.value) {
        None => Lowered::Error(
            ErrorOf { kind: ErrorKindOf::Undefined { ident: c.ident.value }, span: c.ident.span },
        ),
        Some(f) => if f.arguments.len() != c.arguments.len() && (c.arguments.len()
            < f.arguments.len() || !f.variadic) {
            Lowered::Error(
                ErrorOf {
                    kind: ErrorKindOf::ArgumentMismatch {
                        expected: f.arguments.len() as usize,
                        got: c.arguments.len() as usize,
                    },
                    span: c.span,
                },
            )
        } else {
            match g_call_args(ctx, g, c, f, 0, seq![]) {
                Lowered::Val(g1, arguments) => Lowered::Val(
                    emit(
                        g1,
                        IrV::Call {
                            symbol: symbol_of(c.ident.value),
                            named: f.arguments.len() as usize,
                            arguments,
                            results,
                        },
                    ),
                    (),
                ),
                Lowered::Error(x) => Lowered::Error(x),
                Lowered::Panics => Lowered::Panics,
            }
        },
    }
}

/// Lowers the arguments of a call from the `i`-th on: declared ones with
/// the layout of their declared kind, extra ones with the layout of `u64`.
pub open spec fn g_call_args(
    ctx: Ctx,
    g: GenV,
    c: CallV,
    f: FuncV,
    i: int,
    acc: Seq<(ArgV, Layout)>,
) -> Lowered<Seq<(ArgV, Layout)>>
    decreases c, c.arguments.len() - i,
{
    if i < 0 || i >= c.arguments.len() {
        Lowered::Val(g, acc)
    } else {
        let layout = if i < f.arguments.len() {
            match f.arguments[i].ty {
                Some(t) => Some(t.kind.spec_layout()),
                None => None,
            }
        } else {
            Some(u64_layout())
        };
        match layout {
            None => Lowered::Error(
                ErrorOf { kind: ErrorKindOf::UnknownType, span: expr_span(c.arguments[i]) },
            ),
            Some(layout) => match g_rvalue(ctx, g, c.arguments[i]) {
                Lowered::Val(g1, a) => g_call_args(ctx, g1, c, f, i + 1, acc.push((a, layout))),
                Lowered::Error(x) => Lowered::Error(x),
                Lowered::Panics => Lowered::Panics,
            },
        }
    }
}

/// Lowers an expression statement.
pub open spec fn g_expr_statement(ctx: Ctx, g: GenV, e: ExprV) -> Lowered<()>
    decreases e, 1int,
{
    match e {
        ExprV::Ident(_) | ExprV::Literal(_) => Lowered::Val(g, ()),
        ExprV::BinOp(_) | ExprV::UnaryOp(_) => match g_rvalue(ctx, g, e) {
            Lowered::Val(g1, _) => Lowered::Val(g1, ()),
            Lowered::Error(x) => Lowered::Error(x),
            Lowered::Panics => Lowered::Panics,
        },
        ExprV::Call(c) => g_call(ctx, g, c, seq![]),
        ExprV::Declaration(d) => match d.ty {
            None => Lowered::Error(ErrorOf { kind: ErrorKindOf::UnknownType, span: d.ident.span }),
            Some(ty) => match s_allocate_var(g, d.ident.value, ty.layout) {
                None => Lowered::Panics,
                Some((g1, dst)) => match d.rhs {
                    None => Lowered::Val(g1, ()),
                    Some(rhs) => match g_rvalue(ctx, g1, *rhs) {
                        Lowered::Val(g2, src) => Lowered::Val(emit(g2, IrV::Store { dst, src }), ()),
                        Lowered::Error(x) => Lowered::Error(x),
                        Lowered::Panics => Lowered::Panics,
                    },
                },
            },
        },
    }
}

/// Lowers a `return` statement.
pub open spec fn g_ret(ctx: Ctx, g: GenV, r: ReturnV) -> Lowered<()>
    decreases r, 0int,
{
    let jump = IrV::Jump { label: epilogue_label(ctx.prefix) };
    match r.expr {
        Some(e) => if ctx.rets.len() != 1 {
            Lowered::Error(
                ErrorOf {
                    kind: ErrorKindOf::ReturnMismatch { expected: ctx.rets.len() as usize, got: 1 },
                    span: r.span,
                },
            )
        } else {
            match g_rvalue(ctx, g, e) {
                Lowered::Val(g1, src) => Lowered::Val(
                    emit(emit(g1, IrV::Store { dst: ctx.rets[0].0, src }), jump),
                    (),
                ),
                Lowered::Error(x) => Lowered::Error(x),
                Lowered::Panics => Lowered::Panics,
            }
        },
        None => if ctx.rets.len() != 0 {
            Lowered::Error(
                ErrorOf {
                    kind: ErrorKindOf::ReturnMismatch { expected: ctx.rets.len() as usize, got: 0 },
                    span: r.span,
                },
            )
        } else {
            Lowered::Val(emit(g, jump), ())
        },
    }
}

/// Lowers `if`: the condition, a jump over the body where it is zero, the body.
pub open spec fn g_if(ctx: Ctx, g: GenV, x: IfV) -> Lowered<()>
    decreases x, 0int,
{
    match s_label(g, ctx.prefix, "if_condition") {
        None => Lowered::Panics,
        Some((g1, cond_label)) => match s_label(g1, ctx.prefix, "if_body") {
            None => Lowered::Panics,
            Some((g2, body_label)) => match s_label(g2, ctx.prefix, "if_skip") {
                None => Lowered::Panics,
                Some((g3, exit_label)) => match g_rvalue(
                    ctx,
                    emit(g3, IrV::Label { label: cond_label }),
                    x.condition,
                ) {
                    Lowered::Val(g4, arg) => match g_block(
                        ctx,
                        emit(
                            emit(g4, IrV::JumpZero { label: exit_label, arg }),
                            IrV::Label { label: body_label },
                        ),
                        x.body,
                    ) {
                        Lowered::Val(g5, _) => Lowered::Val(emit(g5, IrV::Label { label: exit_label }), ()),
                        Lowered::Error(e) => Lowered::Error(e),
                        Lowered::Panics => Lowered::Panics,
                    },
                    Lowered::Error(e) => Lowered::Error(e),
                    Lowered::Panics => Lowered::Panics,
                },
            },
        },
    }
}

/// Lowers `while`: the condition, a jump out where it is zero, the body and a
/// jump back.
pub open spec fn g_while(ctx: Ctx, g: GenV, x: WhileV) -> Lowered<()>
    decreases x, 0int,
{
    match s_label(g, ctx.prefix, "while_condition") {
        None => Lowered::Panics,
        Some((g1, cond_label)) => match s_label(g1, ctx.prefix, "while_body") {
            None => Lowered::Panics,
            Some((g2, body_label)) => match s_label(g2, ctx.prefix, "while_exit") {
                None => Lowered::Panics,
                Some((g3, exit_label)) => match g_rvalue(
                    ctx,
                    emit(g3, IrV::Label { label: cond_label }),
                    x.condition,
                ) {
                    Lowered::Val(g4, arg) => match g_block(
                        ctx,
                        emit(
                            emit(g4, IrV::JumpZero { label: exit_label, arg }),
                            IrV::Label { label: body_label },
                        ),
                        x.body,
                    ) {
                        Lowered::Val(g5, _) => Lowered::Val(emit(emit(g5, IrV::Jump { label: cond_label }), IrV::Label { label: exit_label }), ()),
                        Lowered::Error(e) => Lowered::Error(e),
                        Lowered::Panics => Lowered::Panics,
                    },
                    Lowered::Error(e) => Lowered::Error(e),
                    Lowered::Panics => Lowered::Panics,
                },
            },
        },
    }
}

/// Lowers a block.
pub open spec fn g_block(ctx: Ctx, g: GenV, b: BlockV) -> Lowered<()>
    decreases b, b.statements.len() + 1,
{
    g_stmts(ctx, g, b, 0)
}

/// Lowers the statements of a block from the `i`-th on.
pub open spec fn g_stmts(ctx: Ctx, g: GenV, b: BlockV, i: int) -> Lowered<()>
    decreases b, b.statements.len() - i,
{
    if i < 0 || i >= b.statements.len() {
        Lowered::Val(g, ())
    } else {
        match g_stmt(ctx, g, b.statements[i]) {
            Lowered::Val(g1, _) => g_stmts(ctx, g1, b, i + 1),
            Lowered::Error(x) => Lowered::Error(x),
            Lowered::Panics => Lowered::Panics,
        }
    }
}

/// Lowers one statement; a function defined inside a block panics.
pub open spec fn g_stmt(ctx: Ctx, g: GenV, a: AstV) -> Lowered<()>
    decreases a, 0int,
{
    match a {
        AstV::Func(_) => Lowered::Panics,
        AstV::Block(b) => g_block(ctx, g, b),
        AstV::Expr(e) => g_expr_statement(ctx, g, e),
        AstV::Return(r) => g_ret(ctx, g, r),
        AstV::If(i) => g_if(ctx, g, i),
        AstV::While(w) => g_while(ctx, g, w),
    }
}

/// Slots for the arguments of a function from the `i`-th on; `None` where
/// allocation panics.
pub open spec fn arg_slots(g: GenV, args: Seq<DeclarationV>, i: int, acc: Seq<(ArgV, Layout)>) -> Option<
    (GenV, Seq<(ArgV, Layout)>),
>
    decreases args.len() - i,
{
    if i < 0 || i >= args.len() {
        Some((g, acc))
    } else {
        let layout = args[i].ty->Some_0.layout;
        match s_allocate_var(g, args[i].ident.value, layout) {
            None => None,
            Some((g1, a)) => arg_slots(g1, args, i + 1, acc.push((a, layout))),
        }
    }
}

/// Slots for the results of a function from the `i`-th on.
pub open spec fn ret_slots(g: GenV, rets: Seq<DeclarationV>, i: int, acc: Seq<(ArgV, Layout)>) -> Lowered<
    Seq<(ArgV, Layout)>,
>
    decreases rets.len() - i,
{
    if i < 0 || i >= rets.len() {
        Lowered::Val(g, acc)
    } else {
        match rets[i].ty {
            None => Lowered::Error(ErrorOf { kind: ErrorKindOf::UnknownType, span: rets[i].span }),
            Some(t) => match s_allocate(g, t.layout) {
                None => Lowered::Panics,
                Some((g1, a)) => ret_slots(g1, rets, i + 1, acc.push((a, t.layout))),
            },
        }
    }
}

/// The bytes of stack that the slots take, or `None` where that overflows.
pub open spec fn stack_size(vars: Seq<StackSlot>) -> Option<usize> {
    if vars.len() == 0 {
        Some(0)
    } else if vars.last().aligned_offset + vars.last().layout.size > usize::MAX {
        None
    } else {
        Some((vars.last().aligned_offset + vars.last().layout.size) as usize)
    }
}

/// Lowers a function definition: its label, the prologue, the loading of
/// its arguments, its body and the epilogue; the stack allocation is put
/// after the prologue label once the body is known.
pub open spec fn g_func(funcs: Seq<FuncV>, g: GenV, f: FuncV) -> Lowered<()> {
    let prefix = f.ident.value;
    if prefix == bytes("printf") || prefix == bytes("exit") {
        Lowered::Val(g, ())
    } else {
        let g0 = GenV {
            vars: seq![],
            names: seq![],
            unique: g.unique,
            ir: g.ir.push(IrV::Label { label: prefix }).push(
                IrV::Label { label: prelude_label(prefix) },
            ),
        };
        let at = g0.ir.len() as int;
        if !(forall|i: int| 0 <= i < f.arguments.len() ==> (#[trigger] f.arguments[i]).ty is Some) {
            Lowered::Panics
        } else {
            match arg_slots(g0, f.arguments, 0, seq![]) {
                None => Lowered::Panics,
                Some((g1, arguments)) => g_func_tail(
                    funcs,
                    f,
                    at,
                    emit(g1, IrV::LoadArguments { arguments }),
                ),
            }
        }
    }
}

/// The rest of a function after its arguments are loaded: slots for its
/// results, its body, the epilogue, and the stack allocation put at `at`.
pub open spec fn g_func_tail(funcs: Seq<FuncV>, f: FuncV, at: int, g: GenV) -> Lowered<()> {
    let prefix = f.ident.value;
    match ret_slots(g, f.returns, 0, seq![]) {
        Lowered::Val(g2, rets) => match g_block(
            Ctx { prefix, funcs, rets },
            emit(g2, IrV::Label { label: body_label(prefix) }),
            f.body,
        ) {
            Lowered::Val(g3, _) => {
                let g4 = emit(g3, IrV::Label { label: epilogue_label(prefix) });
                match stack_size(g4.vars) {
                    None => Lowered::Panics,
                    Some(size) => Lowered::Val(
                        GenV {
                            ir: g4.ir.insert(at, IrV::Allocate { size, slots: g4.vars }).push(
                                IrV::Return { results: rets, deallocate: size },
                            ),
                            ..g4
                        },
                        (),
                    ),
                }
            },
            Lowered::Error(e) => Lowered::Error(e),
            Lowered::Panics => Lowered::Panics,
        },
        Lowered::Error(e) => Lowered::Error(e),
        Lowered::Panics => Lowered::Panics,
    }
}

/// Lowers the statements of the program from the `i`-th on; only function
/// definitions may stand there.
pub open spec fn g_nodes(funcs: Seq<FuncV>, g: GenV, tree: Seq<AstV>, i: int) -> Lowered<()>
    decreases tree.len() - i,
{
    if i < 0 || i >= tree.len() {
        Lowered::Val(g, ())
    } else {
        match tree[i] {
            AstV::Func(f) => match g_func(funcs, g, f) {
                Lowered::Val(g1, _) => g_nodes(funcs, g1, tree, i + 1),
                Lowered::Error(e) => Lowered::Error(e),
                Lowered::Panics => Lowered::Panics,
            },
            other => Lowered::Error(ErrorOf { kind: ErrorKindOf::GlobalScope, span: ast_span(other) }),
        }
    }
}

/// The outcome of lowering a program.
pub open spec fn spec_ir(tree: Seq<AstV>) -> Lowered<()> {
    g_nodes(funcs_of(tree), GenV { vars: seq![], names: seq![], unique: 0, ir: seq![] }, tree, 0)
}

/// The stack slots and named variables of the function being lowered.
pub struct MemoryMap {
    pub map: Vec<(Vec<u8>, usize)>,
    pub vars: Vec<StackSlot>,
}

/// The label prefix of the function being lowered and the counter that
/// makes labels unique.
pub struct Labels {
    pub prefix: Vec<u8>,
    pub unique: usize,
}

/// The state of lowering: memory, labels and the instructions so far.
pub struct Lowering {
    pub memory: MemoryMap,
    pub labels: Labels,
    pub ir: Vec<Ir>,
}

pub open spec fn names_v(m: Seq<(Vec<u8>, usize)>) -> Seq<(Seq<u8>, usize)> {
    m.map_values(|p: (Vec<u8>, usize)| (p.0@, p.1))
}

impl View for Lowering {
    type V = GenV;

    open spec fn view(&self) -> GenV {
        GenV {
            vars: self.memory.vars@,
            names: names_v(self.memory.map@),
            unique: self.labels.unique,
            ir: irs_v(self.ir@),
        }
    }
}

/// Rounds `x` up to a multiple of `m`, or `None` where that overflows.
pub(crate) fn checked_round_up(x: usize, m: usize) -> (r: Option<usize>)
    requires
        m > 0,
    ensures
        match r {
            Some(v) => v == round_up(x as int, m as int),
            None => round_up(x as int, m as int) > usize::MAX,
        },
{
    let rem = x % m;
    if rem == 0 {
        Some(x)
    } else {
        x.checked_add(m - rem)
    }
}

impl MemoryMap {
    /// A new slot of the given layout after the last one.
    pub fn allocate(&mut self, layout: Layout) -> (r: Arg)
        requires
            slot_alloc(old(self).vars@, layout) is Some,
        ensures
            (final(self).vars@, r@) == slot_alloc(old(self).vars@, layout)->Some_0,
            final(self).map@ == old(self).map@,
    {
        let len = self.vars.len();
        if len == 0 {
            self.vars.push(StackSlot { aligned_offset: 0, layout });
        } else {
            let last = self.vars[len - 1];
            let end = last.aligned_offset + last.layout.size;
            let off = checked_round_up(end, layout.align);
            match off {
                Some(off) => self.vars.push(StackSlot { aligned_offset: off, layout }),
                None => {},
            }
        }
        ArgOf::Var(len)
    }

    /// A new slot for the variable `ident`, which must have none yet.
    pub fn allocate_var(&mut self, ident: &Vec<u8>, layout: Layout) -> (r: Arg)
        requires
            slot_alloc(old(self).vars@, layout) is Some,
            lookup_name(names_v(old(self).map@), ident@) is None,
        ensures
            (final(self).vars@, r@) == slot_alloc(old(self).vars@, layout)->Some_0,
            names_v(final(self).map@) == names_v(old(self).map@).push((ident@, r->Var_0)),
            r is Var,
    {
        let arg = self.allocate(layout);
        let index = match arg {
            ArgOf::Var(i) => i,
            _ => 0,
        };
        let ghost old_names = names_v(self.map@);
        self.map.push((copy_bytes(ident), index));
        assert(names_v(self.map@) =~= old_names.push((ident@, index)));
        arg
    }

    /// The slot of a named variable.
    pub fn var(&self, ident: &Ident) -> (r: Result<Arg, Error>)
        ensures
            match lookup_name(names_v(self.map@), ident.value@) {
                Some(i) => r matches Ok(x) && x@ == ArgOf::<DataV>::Var(i),
                None => r matches Err(x) && x@ == (ErrorOf {
                    kind: ErrorKindOf::Undefined { ident: ident.value@ },
                    span: ident.span,
                }),
            },
    {
        let ghost nv = names_v(self.map@);
        let mut i = self.map.len();
        assert(nv.take(i as int) =~= nv);
        while i > 0
            invariant
                nv == names_v(self.map@),
                0 <= i <= self.map@.len(),
                lookup_name(nv, ident.value@) == lookup_name(nv.take(i as int), ident.value@),
            decreases i,
        {
            assert(nv.take(i as int).drop_last() =~= nv.take(i - 1));
            assert(nv.take(i as int).last() == nv[i - 1]);
            if bytes_eq(&self.map[i - 1].0, &ident.value) {
                return Ok(ArgOf::Var(self.map[i - 1].1));
            }
            i -= 1;
        }
        Err(ErrorOf { kind: ErrorKindOf::Undefined { ident: copy_bytes(&ident.value) }, span: ident.span })
    }

    /// The operand for static data.
    pub fn data(&mut self, data: Data) -> (r: Arg)
        ensures
            r@ == ArgOf::Data(data@),
            *final(self) == *old(self),
    {
        ArgOf::Data(data)
    }

    /// The bytes of stack the slots take.
    pub fn size(&self) -> (r: usize)
        requires
            stack_size(self.vars@) is Some,
        ensures
            r == stack_size(self.vars@)->Some_0,
    {
        if self.vars.len() == 0 {
            0
        } else {
            let s = self.vars[self.vars.len() - 1];
            s.aligned_offset + s.layout.size
        }
    }
}

impl Labels {
    /// The label of the function's prologue.
    pub fn prelude(&self) -> (r: Vec<u8>)
        ensures
            r@ == prelude_label(self.prefix@),
    {
        let mut r = copy_bytes(&self.prefix);
        push_str(&mut r, "_prelude");
        r
    }

    /// The label of the function's body.
    pub fn body(&self) -> (r: Vec<u8>)
        ensures
            r@ == body_label(self.prefix@),
    {
        let mut r = copy_bytes(&self.prefix);
        push_str(&mut r, "_body");
        r
    }

    /// A fresh label `<prefix>_<name><n>`.
    pub fn label(&mut self, name: &str) -> (r: Vec<u8>)
        requires
            old(self).unique < usize::MAX,
        ensures
            r@ == old(self).prefix@ + bytes("_") + bytes(name) + decimal(old(self).unique as nat),
            r@ == labels_made(old(self).prefix@, old(self).unique as nat, seq![bytes(name)])[0],
            (final(self).prefix@, final(self).unique as nat) == labels_after(
                old(self).prefix@,
                old(self).unique as nat,
                seq![bytes(name)],
            ),
    {
        let mut r = copy_bytes(&self.prefix);
        push_str(&mut r, "_");
        push_str(&mut r, name);
        push_decimal(&mut r, self.unique as u64);
        self.unique += 1;
        r
    }

    /// The label of the function's epilogue.
    pub fn epilogue(&self) -> (r: Vec<u8>)
        ensures
            r@ == epilogue_label(self.prefix@),
    {
        let mut r = copy_bytes(&self.prefix);
        push_str(&mut r, "_epilogue");
        r
    }
}

/// Whether a byte is an ASCII digit.
pub open spec fn is_digit_byte(b: u8) -> bool {
    48 <= b <= 57
}

proof fn lemma_decimal_digits(n: nat)
    ensures
        decimal(n).len() >= 1,
        forall|i: int| 0 <= i < decimal(n).len() ==> is_digit_byte(#[trigger] decimal(n)[i]),
    decreases n,
{
    if n >= 10 {
        lemma_decimal_digits(n / 10);
        let d = decimal(n / 10);
        assert forall|i: int| 0 <= i < decimal(n).len() implies is_digit_byte(#[trigger] decimal(n)[i]) by {
            if i < d.len() {
                assert(decimal(n)[i] == d[i]);
            }
        }
    }
}

proof fn lemma_decimal_injective(n: nat, m: nat)
    requires
        decimal(n) == decimal(m),
    ensures
        n == m,
    decreases n,
{
    if n >= 10 && m >= 10 {
        assert(decimal(n / 10) =~= decimal(n).drop_last());
        assert(decimal(m / 10) =~= decimal(m).drop_last());
        lemma_decimal_injective(n / 10, m / 10);
        assert(decimal(n).last() == digit(n % 10));
        assert(decimal(m).last() == digit(m % 10));
        assert(n % 10 == m % 10);
        assert(n == (n / 10) * 10 + n % 10) by (nonlinear_arith);
        assert(m == (m / 10) * 10 + m % 10) by (nonlinear_arith);
    } else if n < 10 && m < 10 {
        assert(decimal(n)[0] == digit(n));
        assert(decimal(m)[0] == digit(m));
        assert(digit(n) == digit(m));
        assert(n == m);
    } else if n >= 10 {
        lemma_decimal_digits(n / 10);
        assert(decimal(n).len() >= 2);
        assert(decimal(m).len() == 1);
    } else if m >= 10 {
        lemma_decimal_digits(m / 10);
        assert(decimal(m).len() >= 2);
        assert(decimal(n).len() == 1);
    }
}

/// The numbered labels of lowering never repeat: two labels made with
/// different counter values differ, whatever their prefixes and names, as
/// long as each name ends in a byte that is not a digit. The counter moves
/// on with every label made, so no two labels made in one lowering are the
/// same.
pub proof fn law_numbered_labels_differ(p1: Seq<u8>, a: Seq<u8>, n: nat, p2: Seq<u8>, b: Seq<u8>, m: nat)
    requires
        a.len() > 0,
        b.len() > 0,
        !is_digit_byte(a.last()),
        !is_digit_byte(b.last()),
        n != m,
    ensures
        p1 + bytes("_") + a + decimal(n) != p2 + bytes("_") + b + decimal(m),
{
    let x = p1 + bytes("_") + a;
    let y = p2 + bytes("_") + b;
    let s1 = x + decimal(n);
    let s2 = y + decimal(m);
    lemma_decimal_digits(n);
    lemma_decimal_digits(m);
    if s1 == s2 {
        let k1 = decimal(n).len();
        let k2 = decimal(m).len();
        let len = s1.len();
        assert(x.last() == a.last());
        assert(y.last() == b.last());
        if k1 < k2 {
            assert(s1[len - k1 - 1] == x.last());
            assert(s2[len - k1 - 1] == decimal(m)[k2 - k1 - 1]);
        } else if k2 < k1 {
            assert(s2[len - k2 - 1] == y.last());
            assert(s1[len - k2 - 1] == decimal(n)[k1 - k2 - 1]);
        } else {
            assert(decimal(n) =~= s1.skip(len - k1));
            assert(decimal(m) =~= s2.skip(len - k2));
            lemma_decimal_injective(n, m);
        }
    }
}

/// Two labels made with the same name differ whenever the counter differs,
/// whatever the name: `label` moves the counter on with every call and
/// keeps the prefix, so no two labels of one function are the same.
pub proof fn law_same_name_labels_differ(p: Seq<u8>, a: Seq<u8>, n: nat, m: nat)
    requires
        n != m,
    ensures
        p + bytes("_") + a + decimal(n) != p + bytes("_") + a + decimal(m),
{
    let x = p + bytes("_") + a;
    if x + decimal(n) == x + decimal(m) {
        assert(decimal(n) =~= (x + decimal(n)).skip(x.len() as int));
        assert(decimal(m) =~= (x + decimal(m)).skip(x.len() as int));
        lemma_decimal_injective(n, m);
    }
}

/// The epilogue label depends on the prefix alone, which making labels
/// keeps, so every `return` jumps to the one place the function's epilogue
/// marks; and it is neither the prologue's nor the body's label nor the
/// function's own name.
pub proof fn law_epilogue_label_distinct(p: Seq<u8>)
    ensures
        epilogue_label(p) != prelude_label(p),
        epilogue_label(p) != body_label(p),
        epilogue_label(p) != p,
{
    reveal_strlit("_epilogue");
    reveal_strlit("_prelude");
    reveal_strlit("_body");
    lemma_ascii_bytes("_epilogue");
    lemma_ascii_bytes("_prelude");
    lemma_ascii_bytes("_body");
    assert(epilogue_label(p).len() == p.len() + 9);
    assert(prelude_label(p).len() == p.len() + 8);
    assert(body_label(p).len() == p.len() + 5);
}

/// The labels that calls of `label` with the names `names`, in turn, make
/// on labels with prefix `p` and counter `u`: call `i` makes the label of
/// `names[i]` numbered `u + i`.
pub open spec fn labels_made(p: Seq<u8>, u: nat, names: Seq<Seq<u8>>) -> Seq<Seq<u8>> {
    Seq::new(names.len(), |i: int| p + bytes("_") + names[i] + decimal((u + i) as nat))
}

/// The prefix and counter after calls of `label` with the names `names`:
/// the prefix kept, the counter moved on once per call.
pub open spec fn labels_after(p: Seq<u8>, u: nat, names: Seq<Seq<u8>>) -> (Seq<u8>, nat) {
    (p, u + names.len())
}

/// The labels of one function never collide, and its epilogue stays put:
/// of any calls of `label`, two with the same name make different labels,
/// whatever calls come between; and the epilogue label after any calls is
/// the one before them, which is neither the prologue's nor the body's
/// label nor the function's name.
pub proof fn law_labels_of_a_function(p: Seq<u8>, u: nat, names: Seq<Seq<u8>>, i: int, j: int)
    requires
        0 <= i < j < names.len(),
    ensures
        names[i] == names[j] ==> labels_made(p, u, names)[i] != labels_made(p, u, names)[j],
        epilogue_label(labels_after(p, u, names).0) == epilogue_label(p),
        epilogue_label(p) != prelude_label(p),
        epilogue_label(p) != body_label(p),
        epilogue_label(p) != p,
{
    if names[i] == names[j] {
        law_same_name_labels_differ(p, names[i], (u + i) as nat, (u + j) as nat);
    }
    law_epilogue_label_distinct(p);
}

/// Why lowering stopped without a result: an error to report, or an input
/// on which this lowering gives up, one on which it would panic (a nested
/// function, an argument without a type, two arguments of one name, or
/// stack offsets or label numbers past the machine's range).
pub enum Stop {
    Error(Error),
    Panic,
}

/// The failure `s` matched by the outcome `p` of a step that gave no value.
pub open spec fn stop_lowered<T>(p: Lowered<T>, s: Stop) -> bool {
    match p {
        Lowered::Val(_, _) => false,
        Lowered::Error(e) => s matches Stop::Error(x) && x@ == e,
        Lowered::Panics => s is Panic,
    }
}

/// The outcome `p` matched by the operand result `r` and the state `st`.
pub open spec fn arg_lowered(p: Lowered<ArgV>, st: Lowering, r: Result<Arg, Stop>) -> bool {
    match p {
        Lowered::Val(g, a) => r matches Ok(x) && x@ == a && st@ == g,
        _ => r matches Err(s) && stop_lowered(p, s),
    }
}

/// The outcome `p` matched by the result `r` and the state `st`.
pub open spec fn unit_lowered(p: Lowered<()>, st: Lowering, r: Result<(), Stop>) -> bool {
    match p {
        Lowered::Val(g, _) => r is Ok && st@ == g,
        _ => r matches Err(s) && stop_lowered(p, s),
    }
}

/// The function definitions of a program, found by name.
pub struct Funcs<'a> {
    pub tree: &'a [Ast],
}

impl<'a> Funcs<'a> {
    pub open spec fn spec_funcs(&self) -> Seq<FuncV> {
        funcs_of(asts_v(self.tree@))
    }

    /// The last function definition of this name.
    pub fn func(&self, ident: &Ident) -> (r: Result<&'a Func, Error>)
        ensures
            match lookup_func(self.spec_funcs(), ident.value@) {
                Some(f) => r matches Ok(x) && func_v(*x) == f,
                None => r matches Err(x) && x@ == (ErrorOf {
                    kind: ErrorKindOf::Undefined { ident: ident.value@ },
                    span: ident.span,
                }),
            },
    {
        let ghost tv = asts_v(self.tree@);
        let mut i = self.tree.len();
        assert(tv.take(i as int) =~= tv);
        while i > 0
            invariant
                tv == asts_v(self.tree@),
                tv.len() == self.tree@.len(),
                0 <= i <= self.tree@.len(),
                lookup_func(funcs_of(tv), ident.value@) == lookup_func(
                    funcs_of(tv.take(i as int)),
                    ident.value@,
                ),
            decreases i,
        {
            assert(tv.take(i as int).drop_last() =~= tv.take(i - 1));
            assert(tv.take(i as int).last() == ast_v(self.tree@[i - 1]));
            match &self.tree[i - 1] {
                Ast::Func(f) => {
                    if bytes_eq(&f.ident.value, &ident.value) {
                        return Ok(f);
                    }
                    assert(funcs_of(tv.take(i as int)) == funcs_of(tv.take(i - 1)).push(func_v(*f)));
                    assert(funcs_of(tv.take(i as int)).drop_last() =~= funcs_of(tv.take(i - 1)));
                },
                _ => {
                    assert(funcs_of(tv.take(i as int)) == funcs_of(tv.take(i - 1)));
                },
            }
            i -= 1;
        }
        Err(ErrorOf { kind: ErrorKindOf::Undefined { ident: copy_bytes(&ident.value) }, span: ident.span })
    }
}

/// The context that lowering reads.
pub open spec fn ctx_of(st: Lowering, funcs: Funcs, rets: Seq<(Arg, Layout)>) -> Ctx {
    Ctx { prefix: st.labels.prefix@, funcs: funcs.spec_funcs(), rets: pairs_v(rets) }
}

fn push_ir(st: &mut Lowering, i: Ir)
    ensures
        final(st)@ == emit(old(st)@, ir_v(i)),
        final(st).labels.prefix@ == old(st).labels.prefix@,
        final(st).ir@.len() == old(st).ir@.len() + 1,
{
    let ghost old_ir = irs_v(st.ir@);
    st.ir.push(i);
    assert(irs_v(st.ir@) =~= old_ir.push(ir_v(i)));
}

/// Whether a new slot of the given layout fits after the last one.
fn can_allocate(vars: &Vec<StackSlot>, layout: Layout) -> (r: bool)
    ensures
        r == slot_alloc(vars@, layout) is Some,
{
    let len = vars.len();
    if len == 0 {
        return true;
    }
    let last = vars[len - 1];
    match last.aligned_offset.checked_add(last.layout.size) {
        None => false,
        Some(end) => layout.align != 0 && checked_round_up(end, layout.align).is_some(),
    }
}

/// A new slot of the given layout, or `None` where its offset overflows.
fn allocate(st: &mut Lowering, layout: Layout) -> (r: Option<Arg>)
    ensures
        match s_allocate(old(st)@, layout) {
            Some((g, a)) => r matches Some(x) && x@ == a && final(st)@ == g,
            None => r is None,
        },
        final(st).labels.prefix@ == old(st).labels.prefix@,
        final(st).ir@ == old(st).ir@,
{
    if !can_allocate(&st.memory.vars, layout) {
        return None;
    }
    Some(st.memory.allocate(layout))
}

/// A new slot for the variable `ident`, or `None` where the name has one
/// already or the offset overflows.
fn allocate_var(st: &mut Lowering, ident: &Ident, layout: Layout) -> (r: Option<Arg>)
    ensures
        match s_allocate_var(old(st)@, ident.value@, layout) {
            Some((g, a)) => r matches Some(x) && x@ == a && final(st)@ == g,
            None => r is None,
        },
        final(st).labels.prefix@ == old(st).labels.prefix@,
        final(st).ir@ == old(st).ir@,
{
    if !can_allocate(&st.memory.vars, layout) || st.memory.var(ident).is_ok() {
        return None;
    }
    Some(st.memory.allocate_var(&ident.value, layout))
}

/// A fresh label, or `None` where the counter is exhausted.
fn label(st: &mut Lowering, name: &str) -> (r: Option<Vec<u8>>)
    ensures
        match s_label(old(st)@, old(st).labels.prefix@, name) {
            Some((g, l)) => r matches Some(x) && x@ == l && final(st)@ == g,
            None => r is None,
        },
        final(st).labels.prefix@ == old(st).labels.prefix@,
        final(st).ir@ == old(st).ir@,
{
    if st.labels.unique == usize::MAX {
        return None;
    }
    Some(st.labels.label(name))
}

fn u64_layout_exec() -> (r: Layout)
    ensures
        r == u64_layout(),
{
    TypeKind::U64.layout()
}

/// The slot of a named variable, as a lowering result.
fn var_arg(st: &Lowering, ident: &Ident) -> (r: Result<Arg, Stop>)
    ensures
        match s_var(st@, ident@) {
            Ok(a) => r matches Ok(x) && x@ == a,
            Err(e) => r matches Err(Stop::Error(x)) && x@ == e,
        },
{
    match st.memory.var(ident) {
        Ok(a) => Ok(a),
        Err(e) => Err(Stop::Error(e)),
    }
}

/// Lowers an expression whose value is used.
fn rvalue_expr(st: &mut Lowering, funcs: &Funcs, rets: &[(Arg, Layout)], e: &Expr) -> (r: Result<Arg, Stop>)
    ensures
        arg_lowered(g_rvalue(ctx_of(*old(st), *funcs, rets@), old(st)@, expr_v(*e)), *final(st), r),
        final(st).labels.prefix@ == old(st).labels.prefix@,
        final(st).ir@.len() >= old(st).ir@.len(),
    decreases e, 0int,
{
    match e {
        Expr::Ident(ident) => var_arg(st, ident),
        Expr::Literal(literal) => match &literal.kind {
            LiteralKind::Integer(lit) => Ok(ArgOf::Lit(*lit)),
            LiteralKind::Str(s) => Ok(st.memory.data(Data::Str(copy_bytes(s)))),
        },
        Expr::BinOp(bo) => bin_op(st, funcs, rets, bo),
        Expr::UnaryOp(uo) => unary_op(st, funcs, rets, uo),
        Expr::Declaration(decl) => Err(
            Stop::Error(ErrorOf { kind: ErrorKindOf::ExpectedRValue, span: decl.span }),
        ),
        Expr::Call(c) => call_and_store(st, funcs, rets, c),
    }
}

/// Lowers an expression that is assigned to.
fn lvalue_expr(st: &mut Lowering, e: &Expr) -> (r: Result<Arg, Stop>)
    ensures
        arg_lowered(g_lvalue(old(st)@, expr_v(*e)), *final(st), r),
        !(*e is Ident) ==> *final(st) == *old(st),
        final(st).labels.prefix@ == old(st).labels.prefix@,
        final(st).ir@.len() >= old(st).ir@.len(),
{
    match e {
        Expr::Ident(ident) => var_arg(st, ident),
        _ => Err(Stop::Error(ErrorOf { kind: ErrorKindOf::ExpectedLValue, span: e.span() })),
    }
}

/// Lowers a negation.
fn unary_op(st: &mut Lowering, funcs: &Funcs, rets: &[(Arg, Layout)], uo: &UnaryOp) -> (r: Result<Arg, Stop>)
    ensures
        arg_lowered(g_rvalue(ctx_of(*old(st), *funcs, rets@), old(st)@, expr_v(Expr::UnaryOp(*uo))), *final(st), r),
        final(st).labels.prefix@ == old(st).labels.prefix@,
        final(st).ir@.len() >= old(st).ir@.len(),
    decreases uo, 0int,
{
    match uo.kind {
        UnaryOpKind::Not => {
            let dst = match allocate(st, u64_layout_exec()) {
                Some(a) => a,
                None => {
                    return Err(Stop::Panic);
                },
            };
            let src = rvalue_expr(st, funcs, rets, &uo.expr)?;
            push_ir(st, Ir::Unary { dst: dst.copy(), src, una: uo.kind });
            Ok(dst)
        },
    }
}

/// Lowers a binary operation.
fn bin_op(st: &mut Lowering, funcs: &Funcs, rets: &[(Arg, Layout)], bo: &BinOp) -> (r: Result<Arg, Stop>)
    ensures
        arg_lowered(g_bin_op(ctx_of(*old(st), *funcs, rets@), old(st)@, binop_v(*bo)), *final(st), r),
        !(bo.kind is And || bo.kind is Or || bo.kind is Add || bo.kind is Sub || bo.kind is Mul
            || bo.kind is Div || bo.kind is Mod || bo.kind is Eq || bo.kind is Ne || bo.kind is Gt
            || bo.kind is Ge || bo.kind is Lt || bo.kind is Le || bo.kind is BitAnd || bo.kind is BitOr
            || bo.kind is Xor || bo.kind is Shl || bo.kind is Shr) && !(*bo.lhs is Ident) ==> *final(st)
            == *old(st),
        final(st).labels.prefix@ == old(st).labels.prefix@,
        final(st).ir@.len() >= old(st).ir@.len(),
    decreases bo, 0int,
{
    match bo.kind {
        BinOpKind::And | BinOpKind::Or => {
            let is_and = matches!(bo.kind, BinOpKind::And);
            let dst = match allocate(st, u64_layout_exec()) {
                Some(a) => a,
                None => {
                    return Err(Stop::Panic);
                },
            };
            let skip = match label(st, if is_and { "and_skip" } else { "or_skip" }) {
                Some(l) => l,
                None => {
                    return Err(Stop::Panic);
                },
            };
            let lhs = rvalue_expr(st, funcs, rets, &bo.lhs)?;
            push_ir(st, Ir::Store { dst: dst.copy(), src: lhs.copy() });
            if is_and {
                push_ir(st, Ir::JumpZero { label: copy_bytes(&skip), arg: lhs });
            } else {
                push_ir(st, Ir::JumpNotZero { label: copy_bytes(&skip), arg: lhs });
            }
            let rhs = rvalue_expr(st, funcs, rets, &bo.rhs)?;
            push_ir(st, Ir::Store { dst: dst.copy(), src: rhs });
            push_ir(st, Ir::Label { label: skip });
            Ok(dst)
        },
        BinOpKind::Assign | BinOpKind::AddAssign | BinOpKind::SubAssign | BinOpKind::MulAssign
        | BinOpKind::DivAssign | BinOpKind::ModAssign | BinOpKind::BitAndAssign
        | BinOpKind::BitOrAssign | BinOpKind::XorAssign | BinOpKind::ShlAssign
        | BinOpKind::ShrAssign => {
            let lhs = lvalue_expr(st, &bo.lhs)?;
            let rhs = rvalue_expr(st, funcs, rets, &bo.rhs)?;
            if matches!(bo.kind, BinOpKind::Assign) {
                push_ir(st, Ir::Store { dst: lhs.copy(), src: rhs });
                Ok(lhs)
            } else {
                let bin = match bo.kind {
                    BinOpKind::AddAssign => IrBinOpKind::Add,
                    BinOpKind::SubAssign => IrBinOpKind::Sub,
                    BinOpKind::MulAssign => IrBinOpKind::Mul,
                    BinOpKind::DivAssign => IrBinOpKind::Div,
                    BinOpKind::ModAssign => IrBinOpKind::Mod,
                    BinOpKind::BitAndAssign => IrBinOpKind::BitAnd,
                    BinOpKind::BitOrAssign => IrBinOpKind::BitOr,
                    BinOpKind::XorAssign => IrBinOpKind::Xor,
                    BinOpKind::ShlAssign => IrBinOpKind::Shl,
                    _ => IrBinOpKind::Shr,
                };
                push_ir(st, Ir::Bin { dst: lhs.copy(), lhs: lhs.copy(), rhs, bin });
                Ok(lhs)
            }
        },
        _ => {
            let lhs = rvalue_expr(st, funcs, rets, &bo.lhs)?;
            let rhs = rvalue_expr(st, funcs, rets, &bo.rhs)?;
            let dst = match allocate(st, u64_layout_exec()) {
                Some(a) => a,
                None => {
                    return Err(Stop::Panic);
                },
            };
            let bin = IrBinOpKind::expect_from_ast_bin_op_kind(bo.kind);
            push_ir(st, Ir::Bin { dst: dst.copy(), lhs, rhs, bin });
            Ok(dst)
        },
    }
}

/// The symbol a call refers to.
fn symbol(name: &Vec<u8>) -> (r: Vec<u8>)
    ensures
        r@ == symbol_of(name@),
{
    let printf = bytes_of("printf");
    let exit = bytes_of("exit");
    if bytes_eq(name, &printf) {
        bytes_of("_printf")
    } else if bytes_eq(name, &exit) {
        bytes_of("_exit")
    } else {
        copy_bytes(name)
    }
}

/// The bytes of a string as a vector.
fn bytes_of(s: &str) -> (r: Vec<u8>)
    ensures
        r@ == bytes(s),
{
    let mut r: Vec<u8> = Vec::new();
    push_str(&mut r, s);
    assert(r@ =~= bytes(s));
    r
}

/// Lowers a call whose results go to `results`.
fn call(
    st: &mut Lowering,
    funcs: &Funcs,
    rets: &[(Arg, Layout)],
    c: &Call,
    results: Vec<(Arg, Layout)>,
) -> (r: Result<(), Stop>)
    ensures
        unit_lowered(g_call(ctx_of(*old(st), *funcs, rets@), old(st)@, call_v(*c), pairs_v(results@)), *final(st), r),
        match lookup_func(ctx_of(*old(st), *funcs, rets@).funcs, call_v(*c).ident.value) {
            None => *final(st) == *old(st),
            Some(f) => f.arguments.len() != call_v(*c).arguments.len() && (call_v(*c).arguments.len()
                < f.arguments.len() || !f.variadic) ==> *final(st) == *old(st),
        },
        final(st).labels.prefix@ == old(st).labels.prefix@,
        final(st).ir@.len() >= old(st).ir@.len(),
    decreases c, c.arguments@.len() + 1,
{
    let ghost ctx = ctx_of(*st, *funcs, rets@);
    let ghost cv = call_v(*c);
    let func = match funcs.func(&c.ident) {
        Ok(f) => f,
        Err(e) => {
            return Err(Stop::Error(e));
        },
    };
    let ghost fv = func_v(*func);
    let nf = func.arguments.len();
    let nc = c.arguments.len();
    if nf != nc && (nc < nf || !func.variadic) {
        return Err(
            Stop::Error(
                ErrorOf {
                    kind: ErrorKindOf::ArgumentMismatch { expected: nf, got: nc },
                    span: c.span,
                },
            ),
        );
    }
    let mut arguments: Vec<(Arg, Layout)> = Vec::new();
    let mut i: usize = 0;
    assert(pairs_v(arguments@) =~= seq![]);
    while i < nc
        invariant
            ctx == ctx_of(*st, *funcs, rets@),
            cv == call_v(*c),
            fv == func_v(*func),
            nc == c.arguments@.len(),
            nf == func.arguments@.len(),
            cv.arguments.len() == nc,
            fv.arguments.len() == nf,
            lookup_func(ctx.funcs, cv.ident.value) == Some(fv),
            !(fv.arguments.len() != cv.arguments.len() && (cv.arguments.len() < fv.arguments.len()
                || !fv.variadic)),
            ctx == ctx_of(*old(st), *funcs, rets@),
            0 <= i <= nc,
            g_call_args(ctx, st@, cv, fv, i as int, pairs_v(arguments@)) == g_call_args(
                ctx,
                old(st)@,
                cv,
                fv,
                0,
                seq![],
            ),
            st.labels.prefix@ == old(st).labels.prefix@,
            st.ir@.len() >= old(st).ir@.len(),
        decreases nc - i,
    {
        let arg = &c.arguments[i];
        assert(cv.arguments[i as int] == expr_v(c.arguments@[i as int]));
        if i < nf {
            assert(fv.arguments[i as int] == crate::ast::decl_v(func.arguments@[i as int]));
        }
        let layout = if i < nf {
            match func.arguments[i].ty {
                Some(t) => t.kind.layout(),
                None => {
                    return Err(
                        Stop::Error(ErrorOf { kind: ErrorKindOf::UnknownType, span: arg.span() }),
                    );
                },
            }
        } else {
            u64_layout_exec()
        };
        let a = rvalue_expr(st, funcs, rets, arg)?;
        let ghost old_args = pairs_v(arguments@);
        arguments.push((a, layout));
        assert(pairs_v(arguments@) =~= old_args.push((a@, layout)));
        i += 1;
    }
    let ghost argv = pairs_v(arguments@);
    let ghost resv = pairs_v(results@);
    push_ir(st, Ir::Call { symbol: symbol(&c.ident.value), named: nf, arguments, results });
    Ok(())
}

/// Lowers a call whose result is kept in a new slot.
fn call_and_store(st: &mut Lowering, funcs: &Funcs, rets: &[(Arg, Layout)], c: &Call) -> (r: Result<Arg, Stop>)
    ensures
        arg_lowered(g_rvalue(ctx_of(*old(st), *funcs, rets@), old(st)@, expr_v(Expr::Call(*c))), *final(st), r),
        final(st).labels.prefix@ == old(st).labels.prefix@,
        final(st).ir@.len() >= old(st).ir@.len(),
    decreases c, c.arguments@.len() + 2,
{
    let dst = match allocate(st, u64_layout_exec()) {
        Some(a) => a,
        None => {
            return Err(Stop::Panic);
        },
    };
    let mut results: Vec<(Arg, Layout)> = Vec::new();
    results.push((dst.copy(), u64_layout_exec()));
    assert(pairs_v(results@) =~= seq![(dst@, u64_layout())]);
    call(st, funcs, rets, c, results)?;
    Ok(dst)
}

/// Lowers a call whose result is dropped.
fn call_and_ignore(st: &mut Lowering, funcs: &Funcs, rets: &[(Arg, Layout)], c: &Call) -> (r: Result<(), Stop>)
    ensures
        unit_lowered(g_call(ctx_of(*old(st), *funcs, rets@), old(st)@, call_v(*c), seq![]), *final(st), r),
        final(st).labels.prefix@ == old(st).labels.prefix@,
        final(st).ir@.len() >= old(st).ir@.len(),
    decreases c, c.arguments@.len() + 2,
{
    let results: Vec<(Arg, Layout)> = Vec::new();
    assert(pairs_v(results@) =~= seq![]);
    call(st, funcs, rets, c, results)
}

/// Lowers an expression statement.
fn expr_statement(st: &mut Lowering, funcs: &Funcs, rets: &[(Arg, Layout)], e: &Expr) -> (r: Result<(), Stop>)
    ensures
        unit_lowered(g_expr_statement(ctx_of(*old(st), *funcs, rets@), old(st)@, expr_v(*e)), *final(st), r),
        final(st).labels.prefix@ == old(st).labels.prefix@,
        final(st).ir@.len() >= old(st).ir@.len(),
    decreases e, 1int,
{
    match e {
        Expr::Ident(_) | Expr::Literal(_) => {},
        Expr::BinOp(_) | Expr::UnaryOp(_) => {
            rvalue_expr(st, funcs, rets, e)?;
        },
        Expr::Call(c) => {
            call_and_ignore(st, funcs, rets, c)?;
        },
        Expr::Declaration(decl) => {
            let ty = match decl.ty {
                Some(t) => t,
                None => {
                    return Err(
                        Stop::Error(ErrorOf { kind: ErrorKindOf::UnknownType, span: decl.ident.span }),
                    );
                },
            };
            let arg = match allocate_var(st, &decl.ident, ty.layout) {
                Some(a) => a,
                None => {
                    return Err(Stop::Panic);
                },
            };
            match &decl.rhs {
                Some(rhs) => {
                    let result = rvalue_expr(st, funcs, rets, rhs)?;
                    push_ir(st, Ir::Store { dst: arg, src: result });
                },
                None => {},
            }
        },
    }
    Ok(())
}

/// Lowers a `return` statement.
fn ret(st: &mut Lowering, funcs: &Funcs, rets: &[(Arg, Layout)], r: &Return) -> (res: Result<(), Stop>)
    ensures
        unit_lowered(g_ret(ctx_of(*old(st), *funcs, rets@), old(st)@, return_v(*r)), *final(st), res),
        (r.expr is Some && rets@.len() != 1) || (r.expr is None && rets@.len() != 0) ==> *final(st)
            == *old(st),
        final(st).labels.prefix@ == old(st).labels.prefix@,
        final(st).ir@.len() >= old(st).ir@.len(),
    decreases r, 0int,
{
    match &r.expr {
        Some(e) => {
            if rets.len() != 1 {
                return Err(
                    Stop::Error(
                        ErrorOf {
                            kind: ErrorKindOf::ReturnMismatch { expected: rets.len(), got: 1 },
                            span: r.span,
                        },
                    ),
                );
            }
            let arg = rvalue_expr(st, funcs, rets, e)?;
            push_ir(st, Ir::Store { dst: rets[0].0.copy(), src: arg });
        },
        None => {
            if rets.len() != 0 {
                return Err(
                    Stop::Error(
                        ErrorOf {
                            kind: ErrorKindOf::ReturnMismatch { expected: rets.len(), got: 0 },
                            span: r.span,
                        },
                    ),
                );
            }
        },
    }
    let epilogue = st.labels.epilogue();
    push_ir(st, Ir::Jump { label: epilogue });
    Ok(())
}

/// Lowers an `if` statement.
fn iff(st: &mut Lowering, funcs: &Funcs, rets: &[(Arg, Layout)], i: &If) -> (r: Result<(), Stop>)
    ensures
        unit_lowered(g_if(ctx_of(*old(st), *funcs, rets@), old(st)@, if_v(*i)), *final(st), r),
        final(st).labels.prefix@ == old(st).labels.prefix@,
        final(st).ir@.len() >= old(st).ir@.len(),
    decreases i, 0int,
{
    let condition = match label(st, "if_condition") {
        Some(l) => l,
        None => {
            return Err(Stop::Panic);
        },
    };
    let body = match label(st, "if_body") {
        Some(l) => l,
        None => {
            return Err(Stop::Panic);
        },
    };
    let skip = match label(st, "if_skip") {
        Some(l) => l,
        None => {
            return Err(Stop::Panic);
        },
    };
    push_ir(st, Ir::Label { label: condition });
    let arg = rvalue_expr(st, funcs, rets, &i.condition)?;
    push_ir(st, Ir::JumpZero { label: copy_bytes(&skip), arg });
    push_ir(st, Ir::Label { label: body });
    block(st, funcs, rets, &i.body)?;
    push_ir(st, Ir::Label { label: skip });
    Ok(())
}

/// Lowers a `while` statement.
fn whilee(st: &mut Lowering, funcs: &Funcs, rets: &[(Arg, Layout)], w: &While) -> (r: Result<(), Stop>)
    ensures
        unit_lowered(g_while(ctx_of(*old(st), *funcs, rets@), old(st)@, while_v(*w)), *final(st), r),
        final(st).labels.prefix@ == old(st).labels.prefix@,
        final(st).ir@.len() >= old(st).ir@.len(),
    decreases w, 0int,
{
    let condition = match label(st, "while_condition") {
        Some(l) => l,
        None => {
            return Err(Stop::Panic);
        },
    };
    let body = match label(st, "while_body") {
        Some(l) => l,
        None => {
            return Err(Stop::Panic);
        },
    };
    let exit = match label(st, "while_exit") {
        Some(l) => l,
        None => {
            return Err(Stop::Panic);
        },
    };
    push_ir(st, Ir::Label { label: copy_bytes(&condition) });
    let arg = rvalue_expr(st, funcs, rets, &w.condition)?;
    push_ir(st, Ir::JumpZero { label: copy_bytes(&exit), arg });
    push_ir(st, Ir::Label { label: body });
    block(st, funcs, rets, &w.body)?;
    push_ir(st, Ir::Jump { label: condition });
    push_ir(st, Ir::Label { label: exit });
    Ok(())
}

/// Lowers a block.
fn block(st: &mut Lowering, funcs: &Funcs, rets: &[(Arg, Layout)], b: &Block) -> (r: Result<(), Stop>)
    ensures
        unit_lowered(g_block(ctx_of(*old(st), *funcs, rets@), old(st)@, block_v(*b)), *final(st), r),
        final(st).labels.prefix@ == old(st).labels.prefix@,
        final(st).ir@.len() >= old(st).ir@.len(),
    decreases b, b.statements@.len() + 1,
{
    let ghost ctx = ctx_of(*st, *funcs, rets@);
    let ghost bv = block_v(*b);
    let mut i: usize = 0;
    while i < b.statements.len()
        invariant
            ctx == ctx_of(*st, *funcs, rets@),
            bv == block_v(*b),
            0 <= i <= b.statements@.len(),
            g_stmts(ctx, st@, bv, i as int) == g_stmts(ctx, old(st)@, bv, 0),
            st.labels.prefix@ == old(st).labels.prefix@,
            st.ir@.len() >= old(st).ir@.len(),
        decreases b.statements@.len() - i,
    {
        let ast = &b.statements[i];
        let ghost av = ast_v(*ast);
        assert(bv.statements[i as int] == av);
        assert(g_stmts(ctx, st@, bv, i as int) == match g_stmt(ctx, st@, av) {
            Lowered::Val(g1, _) => g_stmts(ctx, g1, bv, i + 1),
            Lowered::Error(x) => Lowered::Error(x),
            Lowered::Panics => Lowered::<()>::Panics,
        });
        match ast {
            Ast::Func(_) => {
                assert(g_stmt(ctx, st@, av) is Panics);
                return Err(Stop::Panic);
            },
            Ast::Block(inner) => {
                assert(g_stmt(ctx, st@, av) == g_block(ctx, st@, block_v(*inner)));
                block(st, funcs, rets, inner)?
            },
            Ast::Expr(e) => {
                assert(g_stmt(ctx, st@, av) == g_expr_statement(ctx, st@, expr_v(*e)));
                expr_statement(st, funcs, rets, e)?
            },
            Ast::Return(r) => {
                assert(g_stmt(ctx, st@, av) == g_ret(ctx, st@, return_v(*r)));
                ret(st, funcs, rets, r)?
            },
            Ast::If(x) => {
                assert(g_stmt(ctx, st@, av) == g_if(ctx, st@, if_v(*x)));
                iff(st, funcs, rets, x)?
            },
            Ast::While(w) => {
                assert(g_stmt(ctx, st@, av) == g_while(ctx, st@, while_v(*w)));
                whilee(st, funcs, rets, w)?
            },
        }
        i += 1;
    }
    Ok(())
}

/// Lowers a function definition.
fn func(st: &mut Lowering, funcs: &Funcs, f: &Func) -> (r: Result<(), Stop>)
    ensures
        unit_lowered(g_func(funcs.spec_funcs(), old(st)@, func_v(*f)), *final(st), r),
{
    let ghost fv = func_v(*f);
    let ghost fs = funcs.spec_funcs();
    let printf = bytes_of("printf");
    let exit = bytes_of("exit");
    if bytes_eq(&f.ident.value, &printf) || bytes_eq(&f.ident.value, &exit) {
        return Ok(());
    }
    st.labels.prefix = copy_bytes(&f.ident.value);
    push_ir(st, Ir::Label { label: copy_bytes(&f.ident.value) });
    let prelude = st.labels.prelude();
    push_ir(st, Ir::Label { label: prelude });
    let allocate_stack = st.ir.len();
    st.memory = MemoryMap { map: Vec::new(), vars: Vec::new() };
    let ghost g0 = st@;
    assert(g0.names =~= seq![]);
    assert(g0 == GenV {
        vars: seq![],
        names: seq![],
        unique: old(st)@.unique,
        ir: old(st)@.ir.push(IrV::Label { label: fv.ident.value }).push(
            IrV::Label { label: prelude_label(fv.ident.value) },
        ),
    });
    assert(fv.arguments == crate::ast::decls_v(f.arguments@));
    let mut k: usize = 0;
    while k < f.arguments.len()
        invariant
            0 <= k <= f.arguments@.len(),
            fv == func_v(*f),
            fs == funcs.spec_funcs(),
            forall|j: int| 0 <= j < k ==> (#[trigger] f.arguments@[j]).ty is Some,
            !(fv.ident.value == bytes("printf") || fv.ident.value == bytes("exit")),
            fv.arguments == crate::ast::decls_v(f.arguments@),
        decreases f.arguments@.len() - k,
    {
        if f.arguments[k].ty.is_none() {
            proof {
                assert(fv.arguments[k as int].ty is None);
            }
            return Err(Stop::Panic);
        }
        k += 1;
    }
    assert forall|j: int| 0 <= j < fv.arguments.len() implies (#[trigger] fv.arguments[j]).ty is Some by {
        assert(fv.arguments[j] == crate::ast::decl_v(f.arguments@[j]));
    }
    let mut arguments: Vec<(Arg, Layout)> = Vec::with_capacity(f.arguments.len());
    let mut i: usize = 0;
    assert(pairs_v(arguments@) =~= seq![]);
    while i < f.arguments.len()
        invariant
            0 <= i <= f.arguments@.len(),
            fv == func_v(*f),
            fs == funcs.spec_funcs(),
            fv.arguments == crate::ast::decls_v(f.arguments@),
            forall|j: int| 0 <= j < f.arguments@.len() ==> (#[trigger] f.arguments@[j]).ty is Some,
            arg_slots(st@, fv.arguments, i as int, pairs_v(arguments@)) == arg_slots(g0, fv.arguments, 0, seq![]),
            forall|j: int| 0 <= j < fv.arguments.len() ==> (#[trigger] fv.arguments[j]).ty is Some,
            !(fv.ident.value == bytes("printf") || fv.ident.value == bytes("exit")),
            g0 == (GenV {
                vars: seq![],
                names: seq![],
                unique: old(st)@.unique,
                ir: old(st)@.ir.push(IrV::Label { label: fv.ident.value }).push(
                    IrV::Label { label: prelude_label(fv.ident.value) },
                ),
            }),
            st.labels.prefix@ == f.ident.value@,
            allocate_stack <= st.ir@.len(),
        decreases f.arguments@.len() - i,
    {
        let arg = &f.arguments[i];
        let ty = match arg.ty {
            Some(t) => t,
            None => {
                return Err(Stop::Panic);
            },
        };
        assert(fv.arguments[i as int] == crate::ast::decl_v(*arg));
        let a = match allocate_var(st, &arg.ident, ty.layout) {
            Some(a) => a,
            None => {
                return Err(Stop::Panic);
            },
        };
        let ghost old_args = pairs_v(arguments@);
        arguments.push((a, ty.layout));
        assert(pairs_v(arguments@) =~= old_args.push((a@, ty.layout)));
        i += 1;
    }
    let ghost argv = pairs_v(arguments@);
    push_ir(st, Ir::LoadArguments { arguments });
    let ghost g1 = st@;
    assert(g_func(fs, old(st)@, fv) == g_func_tail(fs, fv, allocate_stack as int, g1));
    let mut return_args: Vec<(Arg, Layout)> = Vec::with_capacity(f.returns.len());
    let mut i: usize = 0;
    assert(pairs_v(return_args@) =~= seq![]);
    while i < f.returns.len()
        invariant
            0 <= i <= f.returns@.len(),
            fv == func_v(*f),
            fs == funcs.spec_funcs(),
            fv.returns == crate::ast::decls_v(f.returns@),
            ret_slots(st@, fv.returns, i as int, pairs_v(return_args@)) == ret_slots(g1, fv.returns, 0, seq![]),
            g_func(fs, old(st)@, fv) == g_func_tail(fs, fv, allocate_stack as int, g1),
            st.labels.prefix@ == f.ident.value@,
            allocate_stack <= st.ir@.len(),
        decreases f.returns@.len() - i,
    {
        let ret = &f.returns[i];
        assert(fv.returns[i as int] == crate::ast::decl_v(*ret));
        let ty = match ret.ty {
            Some(t) => t,
            None => {
                let e = ErrorOf { kind: ErrorKindOf::UnknownType, span: ret.span };
                assert(ret_slots(st@, fv.returns, i as int, pairs_v(return_args@)) == Lowered::<Seq<(ArgV, Layout)>>::Error(e@));
                assert(g_func_tail(fs, fv, allocate_stack as int, g1) == Lowered::<()>::Error(e@));
                return Err(Stop::Error(e));
            },
        };
        let a = match allocate(st, ty.layout) {
            Some(a) => a,
            None => {
                return Err(Stop::Panic);
            },
        };
        let ghost old_rets = pairs_v(return_args@);
        return_args.push((a, ty.layout));
        assert(pairs_v(return_args@) =~= old_rets.push((a@, ty.layout)));
        i += 1;
    }
    let body = st.labels.body();
    push_ir(st, Ir::Label { label: body });
    block(st, funcs, return_args.as_slice(), &f.body)?;
    let epilogue = st.labels.epilogue();
    push_ir(st, Ir::Label { label: epilogue });
    let len = st.memory.vars.len();
    if len > 0 {
        let last = st.memory.vars[len - 1];
        if last.aligned_offset.checked_add(last.layout.size).is_none() {
            return Err(Stop::Panic);
        }
    }
    let stack_size = st.memory.size();
    let slots = copy_slots(&st.memory.vars);
    let ghost old_ir = irs_v(st.ir@);
    st.ir.insert(allocate_stack, Ir::Allocate { size: stack_size, slots });
    assert(irs_v(st.ir@) =~= old_ir.insert(allocate_stack as int, IrV::Allocate { size: stack_size, slots: st.memory.vars@ }));
    push_ir(st, Ir::Return { results: return_args, deallocate: stack_size });
    Ok(())
}

/// A copy of stack slots.
fn copy_slots(v: &Vec<StackSlot>) -> (r: Vec<StackSlot>)
    ensures
        r@ == v@,
{
    let mut r: Vec<StackSlot> = Vec::new();
    let mut i: usize = 0;
    while i < v.len()
        invariant
            0 <= i <= v@.len(),
            r@ == v@.take(i as int),
        decreases v@.len() - i,
    {
        r.push(v[i]);
        i += 1;
        assert(r@ =~= v@.take(i as int));
    }
    assert(v@.take(v@.len() as int) =~= v@);
    r
}

/// Lowers a program, which must consist of function definitions; `None` on
/// the programs on which lowering gives up (see [`Stop::Panic`]).
pub fn try_ir(tree: &[Ast]) -> (r: Option<Result<Vec<Ir>, Error>>)
    ensures
        match spec_ir(asts_v(tree@)) {
            Lowered::Val(g, _) => r matches Some(Ok(v)) && irs_v(v@) == g.ir,
            Lowered::Error(e) => r matches Some(Err(x)) && x@ == e,
            Lowered::Panics => r is None,
        },
{
    let ghost tv = asts_v(tree@);
    let funcs = Funcs { tree };
    let mut st = Lowering {
        memory: MemoryMap { map: Vec::new(), vars: Vec::new() },
        labels: Labels { prefix: Vec::new(), unique: 0 },
        ir: Vec::new(),
    };
    assert(names_v(st.memory.map@) =~= seq![]);
    assert(irs_v(st.ir@) =~= seq![]);
    assert(st@ =~= GenV { vars: seq![], names: seq![], unique: 0, ir: seq![] });
    let mut i: usize = 0;
    while i < tree.len()
        invariant
            tv == asts_v(tree@),
            funcs.tree@ == tree@,
            0 <= i <= tree@.len(),
            g_nodes(funcs_of(tv), st@, tv, i as int) == spec_ir(tv),
        decreases tree@.len() - i,
    {
        let node = &tree[i];
        assert(tv[i as int] == ast_v(*node));
        match node {
            Ast::Func(f) => match func(&mut st, &funcs, f) {
                Ok(()) => {},
                Err(Stop::Error(e)) => {
                    return Some(Err(e));
                },
                Err(Stop::Panic) => {
                    return None;
                },
            },
            _ => {
                return Some(Err(ErrorOf { kind: ErrorKindOf::GlobalScope, span: node.span() }));
            },
        }
        i += 1;
    }
    Some(Ok(st.ir))
}

/// Lowers a program, which must consist of function definitions.
pub fn ir(tree: &[Ast]) -> (r: Result<Vec<Ir>, Error>)
    requires
        !(spec_ir(asts_v(tree@)) is Panics),
    ensures
        match spec_ir(asts_v(tree@)) {
            Lowered::Val(g, _) => r matches Ok(v) && irs_v(v@) == g.ir,
            Lowered::Error(e) => r matches Err(x) && x@ == e,
            Lowered::Panics => false,
        },
{
    match try_ir(tree) {
        Some(r) => r,
        None => Ok(Vec::new()),
    }
}

} // verus!
