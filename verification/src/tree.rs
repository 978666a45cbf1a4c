//! The syntax tree of the current front end: its operators and value types.
pub use crate::ast::Layout;
use crate::text::{bytes_eq, copy_bytes};
use vstd::prelude::*;

verus! {

/// The value types of the language.
#[derive(Debug, Clone, Copy, PartialEq, Eq, Structural)]
pub enum Type {
    Not,
    Str,
    U8,
    U16,
    U32,
    U64,
    I8,
    I16,
    I32,
    I64,
}

impl Type {
    pub open spec fn spec_is_integer(self) -> bool {
        !(self is Not || self is Str)
    }

    /// Whether the type is one of the eight integer types.
    pub fn is_integer(&self) -> (r: bool)
        ensures
            r == self.spec_is_integer(),
    {
        match self {
            Type::U8 | Type::U16 | Type::U32 | Type::U64 | Type::I8 | Type::I16 | Type::I32
            | Type::I64 => true,
            Type::Not | Type::Str => false,
        }
    }

    /// The name of the type as the language writes it.
    pub open spec fn name(self) -> &'static str {
        match self {
            Type::Not => "()",
            Type::Str => "str",
            Type::U8 => "u8",
            Type::U16 => "u16",
            Type::U32 => "u32",
            Type::U64 => "u64",
            Type::I8 => "i8",
            Type::I16 => "i16",
            Type::I32 => "i32",
            Type::I64 => "i64",
        }
    }

    /// The name of the type as the language writes it.
    pub fn as_str(&self) -> (r: &'static str)
        ensures
            r == self.name(),
    {
        match self {
            Type::Not => "()",
            Type::Str => "str",
            Type::U8 => "u8",
            Type::U16 => "u16",
            Type::U32 => "u32",
            Type::U64 => "u64",
            Type::I8 => "i8",
            Type::I16 => "i16",
            Type::I32 => "i32",
            Type::I64 => "i64",
        }
    }

    /// The name of the type as the language writes it.
    pub fn to_string(&self) -> (r: String)
        ensures
            r@ == self.name()@,
    {
        let s = match self {
            Type::Not => "()",
            Type::Str => "str",
            Type::U8 => "u8",
            Type::U16 => "u16",
            Type::U32 => "u32",
            Type::U64 => "u64",
            Type::I8 => "i8",
            Type::I16 => "i16",
            Type::I32 => "i32",
            Type::I64 => "i64",
        };
        String::from_str(s)
    }
}

/// A binary operator of an expression.
#[derive(Debug, Clone, Copy, PartialEq, Eq, Structural)]
pub enum BinOp {
    Add,
    Sub,
    Mul,
    Div,
    Mod,
    Eq,
    Ne,
    Gt,
    Ge,
    Lt,
    Le,
    And,
    Or,
    BitAnd,
    BitOr,
    Xor,
    Shr,
    Shl,
    Assign,
    AddAssign,
    SubAssign,
    MulAssign,
    DivAssign,
    ModAssign,
    BitAndAssign,
    BitOrAssign,
    XorAssign,
    ShlAssign,
    ShrAssign,
}

/// The marker an operator node gets besides its operator.
#[derive(Debug, Clone, Copy, PartialEq, Eq, Structural)]
pub enum Marker {
    /// The operator stores into its left operand.
    Assignment,
    /// The operator evaluates its right operand only on demand.
    Logical,
}

impl BinOp {
    /// Whether the operator stores into its left operand.
    pub open spec fn is_assignment(self) -> bool {
        self is Assign || self is AddAssign || self is SubAssign || self is MulAssign || self is DivAssign
            || self is ModAssign || self is BitAndAssign || self is BitOrAssign || self is XorAssign
            || self is ShlAssign || self is ShrAssign
    }

    /// The operator that a compound assignment applies: `a op= b` stores
    /// `a op b` into `a`. Other operators are their own.
    pub open spec fn plain_of(self) -> BinOp {
        match self {
            BinOp::AddAssign => BinOp::Add,
            BinOp::SubAssign => BinOp::Sub,
            BinOp::MulAssign => BinOp::Mul,
            BinOp::DivAssign => BinOp::Div,
            BinOp::ModAssign => BinOp::Mod,
            BinOp::BitAndAssign => BinOp::BitAnd,
            BinOp::BitOrAssign => BinOp::BitOr,
            BinOp::XorAssign => BinOp::Xor,
            BinOp::ShlAssign => BinOp::Shl,
            BinOp::ShrAssign => BinOp::Shr,
            other => other,
        }
    }

    /// Whether the operator is a compound assignment, `op=`.
    pub open spec fn is_compound(self) -> bool {
        self.is_assignment() && !(self is Assign)
    }

    /// Whether the operator is a short-circuiting one.
    pub open spec fn is_logical(self) -> bool {
        self is And || self is Or
    }

    /// The marker of an operator node: assignments and logical operators get
    /// one, the others none.
    pub fn classify(&self) -> (r: Option<Marker>)
        ensures
            r == if self.is_assignment() {
                Some(Marker::Assignment)
            } else if self.is_logical() {
                Some(Marker::Logical)
            } else {
                None::<Marker>
            },
    {
        match self {
            BinOp::Assign | BinOp::AddAssign | BinOp::SubAssign | BinOp::MulAssign | BinOp::DivAssign
            | BinOp::ModAssign | BinOp::BitAndAssign | BinOp::BitOrAssign | BinOp::XorAssign
            | BinOp::ShlAssign | BinOp::ShrAssign => Some(Marker::Assignment),
            BinOp::And | BinOp::Or => Some(Marker::Logical),
            _ => None,
        }
    }

    /// How the operator is shown in messages. The two shift assignments show
    /// each other's symbol.
    pub open spec fn symbol(self) -> &'static str {
        match self {
            BinOp::Add => "+",
            BinOp::Sub => "-",
            BinOp::Mul => "*",
            BinOp::Div => "/",
            BinOp::Mod => "%",
            BinOp::Eq => "==",
            BinOp::Ne => "!=",
            BinOp::Gt => ">",
            BinOp::Ge => ">=",
            BinOp::Lt => "<",
            BinOp::Le => "<=",
            BinOp::And => "&&",
            BinOp::Or => "||",
            BinOp::BitAnd => "&",
            BinOp::BitOr => "|",
            BinOp::Xor => "^",
            BinOp::Shr => ">>",
            BinOp::Shl => "<<",
            BinOp::Assign => "=",
            BinOp::AddAssign => "+=",
            BinOp::SubAssign => "-=",
            BinOp::MulAssign => "*=",
            BinOp::DivAssign => "/=",
            BinOp::ModAssign => "%=",
            BinOp::BitAndAssign => "&=",
            BinOp::BitOrAssign => "|=",
            BinOp::XorAssign => "^=",
            BinOp::ShlAssign => ">>=",
            BinOp::ShrAssign => "<<=",
        }
    }

    /// How the operator is shown in messages.
    pub fn as_str(&self) -> (r: &'static str)
        ensures
            r == self.symbol(),
    {
        match self {
            BinOp::Add => "+",
            BinOp::Sub => "-",
            BinOp::Mul => "*",
            BinOp::Div => "/",
            BinOp::Mod => "%",
            BinOp::Eq => "==",
            BinOp::Ne => "!=",
            BinOp::Gt => ">",
            BinOp::Ge => ">=",
            BinOp::Lt => "<",
            BinOp::Le => "<=",
            BinOp::And => "&&",
            BinOp::Or => "||",
            BinOp::BitAnd => "&",
            BinOp::BitOr => "|",
            BinOp::Xor => "^",
            BinOp::Shr => ">>",
            BinOp::Shl => "<<",
            BinOp::Assign => "=",
            BinOp::AddAssign => "+=",
            BinOp::SubAssign => "-=",
            BinOp::MulAssign => "*=",
            BinOp::DivAssign => "/=",
            BinOp::ModAssign => "%=",
            BinOp::BitAndAssign => "&=",
            BinOp::BitOrAssign => "|=",
            BinOp::XorAssign => "^=",
            BinOp::ShlAssign => ">>=",
            BinOp::ShrAssign => "<<=",
        }
    }

    /// How the operator is shown in messages.
    pub fn to_string(&self) -> (r: String)
        ensures
            r@ == self.symbol()@,
    {
        let s = match self {
            BinOp::Add => "+",
            BinOp::Sub => "-",
            BinOp::Mul => "*",
            BinOp::Div => "/",
            BinOp::Mod => "%",
            BinOp::Eq => "==",
            BinOp::Ne => "!=",
            BinOp::Gt => ">",
            BinOp::Ge => ">=",
            BinOp::Lt => "<",
            BinOp::Le => "<=",
            BinOp::And => "&&",
            BinOp::Or => "||",
            BinOp::BitAnd => "&",
            BinOp::BitOr => "|",
            BinOp::Xor => "^",
            BinOp::Shr => ">>",
            BinOp::Shl => "<<",
            BinOp::Assign => "=",
            BinOp::AddAssign => "+=",
            BinOp::SubAssign => "-=",
            BinOp::MulAssign => "*=",
            BinOp::DivAssign => "/=",
            BinOp::ModAssign => "%=",
            BinOp::BitAndAssign => "&=",
            BinOp::BitOrAssign => "|=",
            BinOp::XorAssign => "^=",
            BinOp::ShlAssign => ">>=",
            BinOp::ShrAssign => "<<=",
        };
        String::from_str(s)
    }
}

/// A literal of an expression, generic over the text of strings.
#[derive(Debug, Clone, PartialEq, Eq)]
pub enum LiteralOf<S> {
    Integer(u64),
    Str(S),
}

pub type Literal = LiteralOf<Vec<u8>>;

pub type LiteralV = LiteralOf<Seq<u8>>;

impl View for LiteralOf<Vec<u8>> {
    type V = LiteralOf<Seq<u8>>;

    open spec fn view(&self) -> LiteralOf<Seq<u8>> {
        match self {
            LiteralOf::Integer(n) => LiteralOf::Integer(*n),
            LiteralOf::Str(s) => LiteralOf::Str(s@),
        }
    }
}

impl LiteralOf<Vec<u8>> {
    /// Whether two literals are equal, comparing strings by content.
    pub fn same(&self, other: &Literal) -> (r: bool)
        ensures
            r == (self@ == other@),
    {
        match (self, other) {
            (LiteralOf::Integer(a), LiteralOf::Integer(b)) => *a == *b,
            (LiteralOf::Str(a), LiteralOf::Str(b)) => bytes_eq(a, b),
            _ => false,
        }
    }

    /// A literal equal to this one.
    pub fn copy(&self) -> (r: Literal)
        ensures
            r@ == self@,
    {
        match self {
            LiteralOf::Integer(n) => LiteralOf::Integer(*n),
            LiteralOf::Str(s) => LiteralOf::Str(copy_bytes(s)),
        }
    }
}

/// A unary operator of an expression.
#[derive(Debug, Clone, Copy, PartialEq, Eq, Structural)]
pub enum UnaryOp {
    Not,
}

} // verus!
