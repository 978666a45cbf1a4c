//! Evaluation of constant binary operations at compile time, with the
//! wrapping semantics of each integer type. Operands and results travel as
//! `u64` words whose low bits hold the value's bit pattern.
use crate::tree::{BinOp, Type};
use vstd::arithmetic::div_mod::{lemma_fundamental_div_mod, lemma_mod_multiples_vanish};
use vstd::prelude::*;

verus! {

/// The width of an integer type in bits.
pub open spec fn bits(ty: Type) -> nat {
    match ty {
        Type::U8 | Type::I8 => 8,
        Type::U16 | Type::I16 => 16,
        Type::U32 | Type::I32 => 32,
        _ => 64,
    }
}

/// The number of bit patterns of an integer type, two to its width.
pub open spec fn modulus(ty: Type) -> int {
    match ty {
        Type::U8 | Type::I8 => 0x100,
        Type::U16 | Type::I16 => 0x1_0000,
        Type::U32 | Type::I32 => 0x1_0000_0000,
        _ => 0x1_0000_0000_0000_0000,
    }
}

/// Whether an integer type is signed.
pub open spec fn is_signed(ty: Type) -> bool {
    ty is I8 || ty is I16 || ty is I32 || ty is I64
}

/// The bit pattern of the integer `v` in the type: `v` modulo two to the
/// width.
pub open spec fn wrap(ty: Type, v: int) -> int {
    v % modulus(ty)
}

/// The bit pattern held in the low bits of `a`.
pub open spec fn pattern(ty: Type, a: u64) -> u64 {
    (a as int % modulus(ty)) as u64
}

/// The value of the type whose bit pattern is held in the low bits of `a`:
/// read in two's complement where the type is signed.
pub open spec fn value_of(ty: Type, a: u64) -> int {
    let p = pattern(ty, a) as int;
    if is_signed(ty) && p >= modulus(ty) / 2 {
        p - modulus(ty)
    } else {
        p
    }
}

/// The absolute value.
pub open spec fn abs(x: int) -> int {
    if x < 0 {
        -x
    } else {
        x
    }
}

/// Division rounding toward zero.
pub open spec fn trunc_div(x: int, y: int) -> int {
    if (x < 0) != (y < 0) {
        -(abs(x) / abs(y))
    } else {
        abs(x) / abs(y)
    }
}

/// The remainder of division rounding toward zero; it has the sign of `x`.
pub open spec fn trunc_rem(x: int, y: int) -> int {
    x - y * trunc_div(x, y)
}

/// The mask of the bits of the type.
pub open spec fn mask(ty: Type) -> u64 {
    (modulus(ty) - 1) as u64
}

/// How far a shift by `b` moves: `b` modulo the width.
pub open spec fn shift_amount(ty: Type, b: u64) -> u64 {
    (b % (bits(ty) as u64)) as u64
}

/// Whether the constant folding evaluates `op`: the arithmetic,
/// comparison and bitwise operators, but not the logical ones or
/// assignments.
pub open spec fn evaluates(op: BinOp) -> bool {
    !(op.is_logical() || op.is_assignment())
}

/// Whether `op` is defined on the operands: a division or remainder needs a
/// divisor other than zero.
pub open spec fn defined(ty: Type, b: u64, op: BinOp) -> bool {
    evaluates(op) && ((op is Div || op is Mod) ==> value_of(ty, b) != 0)
}

/// One if the condition holds, else zero.
pub open spec fn flag(c: bool) -> int {
    if c {
        1
    } else {
        0
    }
}

/// The bit pattern, in the low bits of a word, of `op` applied to the
/// values of type `ty` held in `a` and `b`: arithmetic wraps around,
/// division and remainder round toward zero, comparisons give one or zero,
/// shifts move by the amount modulo the width, and a right shift of a
/// signed value fills with its sign bit.
pub open spec fn fold_value(ty: Type, a: u64, b: u64, op: BinOp) -> u64 {
    let x = value_of(ty, a);
    let y = value_of(ty, b);
    let pa = pattern(ty, a);
    let pb = pattern(ty, b);
    let k = shift_amount(ty, b);
    let r: int = match op {
        BinOp::Add => wrap(ty, x + y),
        BinOp::Sub => wrap(ty, x - y),
        BinOp::Mul => wrap(ty, x * y),
        BinOp::Div => wrap(ty, trunc_div(x, y)),
        BinOp::Mod => wrap(ty, trunc_rem(x, y)),
        BinOp::Eq => flag(x == y),
        BinOp::Ne => flag(x != y),
        BinOp::Gt => flag(x > y),
        BinOp::Ge => flag(x >= y),
        BinOp::Lt => flag(x < y),
        BinOp::Le => flag(x <= y),
        BinOp::BitAnd => (pa & pb) as int,
        BinOp::BitOr => (pa | pb) as int,
        BinOp::Xor => (pa ^ pb) as int,
        BinOp::Shr => if is_signed(ty) && x < 0 {
            ((pa >> k) | (mask(ty) ^ (mask(ty) >> k))) as int
        } else {
            (pa >> k) as int
        },
        BinOp::Shl => ((pa << k) & mask(ty)) as int,
        _ => 0,
    };
    r as u64
}

/// `v` and `v + k * m` leave the same remainder.
proof fn lemma_mod_shift(v: int, k: int, m: int)
    requires
        m > 0,
    ensures
        (v + k * m) % m == v % m,
{
    lemma_mod_multiples_vanish(k, v, m);
    assert(m * k + v == v + k * m) by (nonlinear_arith);
}

/// A remainder that lies in `[0, m)` already is the value itself.
proof fn lemma_mod_small(v: int, m: int)
    requires
        0 <= v < m,
    ensures
        v % m == v,
{
    vstd::arithmetic::div_mod::lemma_small_mod(v as nat, m as nat);
}

/// A word `e` that holds the bit pattern of `r`, where `r` is congruent to
/// `v`, holds the bit pattern of `v`.
proof fn lemma_word(r: int, v: int, m: int, e: int)
    requires
        m > 0,
        -m <= r < m,
        (r - v) % m == 0,
        e == if r < 0 {
            r + m
        } else {
            r
        },
    ensures
        e == v % m,
{
    lemma_fundamental_div_mod(r - v, m);
    let k = (r - v) / m;
    assert(r - v == m * k);
    assert(e == v + (if r < 0 { k + 1 } else { k }) * m) by (nonlinear_arith)
        requires
            r - v == m * k,
            e == if r < 0 {
                r + m
            } else {
                r
            },
    ;
    lemma_mod_shift(v, if r < 0 { k + 1 } else { k }, m);
    lemma_mod_small(e, m);
}

/// Differences of multiples of `m`.
proof fn lemma_congruent(v: int, k: int, m: int)
    requires
        m > 0,
    ensures
        ((v + k * m) - v) % m == 0,
{
    assert((v + k * m) - v == k * m);
    lemma_mod_shift(0, k, m);
    lemma_mod_small(0, m);
}

/// Truncated division of values of the type stays within the type's
/// values, but for the most negative value divided by minus one.
proof fn lemma_div_bounds(x: int, y: int)
    requires
        y != 0,
    ensures
        abs(x) / abs(y) <= abs(x),
        0 <= abs(x) / abs(y),
        y == 1 || y == -1 || abs(x) / abs(y) < abs(x) || abs(x) == 0,
        abs(x) % abs(y) < abs(y),
        0 <= abs(x) % abs(y),
        abs(x) == abs(y) * (abs(x) / abs(y)) + abs(x) % abs(y),
{
    let ax = abs(x);
    let ay = abs(y);
    lemma_fundamental_div_mod(ax, ay);
    assert(0 <= ax / ay <= ax) by (nonlinear_arith)
        requires
            ax >= 0,
            ay > 0,
    ;
    assert(ay == 1 || ax / ay < ax || ax == 0) by (nonlinear_arith)
        requires
            ax >= 0,
            ay > 0,
    ;
    vstd::arithmetic::div_mod::lemma_mod_pos_bound(ax, ay);
}

/// Division by a negative divisor in terms of its absolute value.
proof fn lemma_div_negative(a: int, b: int)
    requires
        a >= 0,
        b < 0,
    ensures
        a / b == -(a / (-b)),
        a % b == a % (-b),
{
    lemma_fundamental_div_mod(a, b);
    lemma_fundamental_div_mod(a, -b);
    assert(0 <= a % b < -b) by (nonlinear_arith)
        requires
            b < 0,
    ;
    let q = -(a / b);
    let r = a % b;
    assert(a == q * (-b) + r) by (nonlinear_arith)
        requires
            a == b * (a / b) + a % b,
            q == -(a / b),
            r == a % b,
    ;
    vstd::arithmetic::div_mod::lemma_fundamental_div_mod_converse(a, -b, q, r);
}

/// Division rounding toward zero, as the machine computes it from
/// divisions of a non-negative dividend.
proof fn lemma_trunc(x: int, y: int)
    requires
        y != 0,
    ensures
        trunc_div(x, y) == if x >= 0 {
            x / y
        } else {
            -((-x) / y)
        },
        trunc_rem(x, y) == if x >= 0 {
            x % y
        } else {
            -((-x) % y)
        },
{
    let ax = abs(x);
    let ay = abs(y);
    lemma_fundamental_div_mod(ax, ay);
    let q = ax / ay;
    let r = ax % ay;
    if y < 0 {
        lemma_div_negative(ax, y);
    }
    if x >= 0 && y < 0 {
        assert(x - y * (-q) == r) by (nonlinear_arith)
            requires
                ax == ay * q + r,
                ax == x,
                ay == -y,
        ;
    } else if x >= 0 {
        assert(x - y * q == r) by (nonlinear_arith)
            requires
                ax == ay * q + r,
                ax == x,
                ay == y,
        ;
    } else if y < 0 {
        assert(x - y * q == -r) by (nonlinear_arith)
            requires
                ax == ay * q + r,
                ax == -x,
                ay == -y,
        ;
    } else {
        assert(x - y * (-q) == -r) by (nonlinear_arith)
            requires
                ax == ay * q + r,
                ax == -x,
                ay == y,
        ;
    }
}

/// Constant evaluation in one integer type.
pub trait IntegerBinOp: Sized {
    /// The type this implementation evaluates in.
    spec fn kind() -> Type;

    /// The word that holds the bit pattern of `v`.
    spec fn word(v: Self) -> u64;

    /// `op` applied to the values of the type held in `a` and `b`.
    fn integer_bin_op(a: u64, b: u64, op: BinOp) -> (r: u64)
        requires
            defined(Self::kind(), b, op),
        ensures
            r == fold_value(Self::kind(), a, b, op),
    ;

    /// The value whose bit pattern is held in the low bits of `v`.
    fn from_u64(v: u64) -> (r: Self)
        ensures
            Self::word(r) == pattern(Self::kind(), v),
    ;

    /// The word that holds the bit pattern of `v` in its low bits, the
    /// others clear.
    fn into_u64(v: Self) -> (r: u64)
        ensures
            r == Self::word(v),
    ;
}

/// Bit-level facts about the unsigned type of the same width.
proof fn lemma_bits_u8(a: u64, x: u8, y: u8, s: u8)
    by (bit_vector)
    requires
        s < 8,
    ensures
        ((x & y) as u64) == (x as u64) & (y as u64),
        ((x | y) as u64) == (x as u64) | (y as u64),
        ((x ^ y) as u64) == (x as u64) ^ (y as u64),
        ((x >> s) as u64) == (x as u64) >> (s as u64),
        ((x << s) as u64) == ((x as u64) << (s as u64)) & 0xff,
        ((a as u8) as u32) % 8 == (a % 8) as u32,
{
}

/// Truncation to the unsigned type of the same width keeps the low bits.
proof fn lemma_low_u8(a: u64)
    by (bit_vector)
    ensures
        (a as u8) as u64 == a % 0x100,
{
}

impl IntegerBinOp for u8 {
    open spec fn kind() -> Type {
        Type::U8
    }

    open spec fn word(v: u8) -> u64 {
        v as u64
    }

    fn from_u64(v: u64) -> (r: u8) {
        proof {
            lemma_low_u8(v);
        }
        v as u8
    }

    fn into_u64(v: u8) -> (r: u64) {
        v as u64
    }

    fn integer_bin_op(a: u64, b: u64, op: BinOp) -> (r: u64) {
        let lhs = Self::from_u64(a);
        let rhs = Self::from_u64(b);
        let ghost x = lhs as int;
        let ghost y = rhs as int;
        let ghost m = 0x100int;
        proof {
            let s = ((rhs as u32) % 8) as u8;
            lemma_bits_u8(b, lhs, rhs, s);
            lemma_low_u8(a);
            lemma_low_u8(b);
            assert(s as u64 == shift_amount(Type::U8, b));
            assert(lhs >> ((rhs as u32) % 8) == lhs >> s);
            assert(lhs << ((rhs as u32) % 8) == lhs << s);
            assert(value_of(Type::U8, a) == x);
            assert(value_of(Type::U8, b) == y);
            lemma_congruent(x + y, -1, m);
            lemma_congruent(x + y, 0, m);
            lemma_congruent(x - y, 1, m);
            lemma_congruent(x - y, 0, m);
        }
        let result: u8 = match op {
            BinOp::Add => {
                let r = lhs.wrapping_add(rhs);
                proof {
                    lemma_word(r as int, x + y, m, r as int);
                }
                r
            },
            BinOp::Sub => {
                let r = lhs.wrapping_sub(rhs);
                proof {
                    lemma_word(r as int, x - y, m, r as int);
                }
                r
            },
            BinOp::Mul => {
                let r = lhs.wrapping_mul(rhs);
                proof {
                    vstd::arithmetic::div_mod::lemma_mod_pos_bound(x * y, m);
                }
                r
            },
            BinOp::Div => {
                proof {
                    lemma_div_bounds(x, y);
                    lemma_mod_small(x / y, m);
                }
                lhs / rhs
            },
            BinOp::Mod => {
                proof {
                    lemma_div_bounds(x, y);
                    lemma_fundamental_div_mod(x, y);
                    lemma_mod_small(x % y, m);
                }
                lhs % rhs
            },
            BinOp::Eq => if lhs == rhs { 1 } else { 0 },
            BinOp::Ne => if lhs != rhs { 1 } else { 0 },
            BinOp::Gt => if lhs > rhs { 1 } else { 0 },
            BinOp::Ge => if lhs >= rhs { 1 } else { 0 },
            BinOp::Lt => if lhs < rhs { 1 } else { 0 },
            BinOp::Le => if lhs <= rhs { 1 } else { 0 },
            BinOp::BitAnd => lhs & rhs,
            BinOp::BitOr => lhs | rhs,
            BinOp::Xor => lhs ^ rhs,
            BinOp::Shr => lhs.wrapping_shr(rhs as u32),
            BinOp::Shl => lhs.wrapping_shl(rhs as u32),
            _ => 0,
        };
        Self::into_u64(result)
    }
}

/// Bit-level facts about the unsigned type of the same width.
proof fn lemma_bits_u16(a: u64, x: u16, y: u16, s: u16)
    by (bit_vector)
    requires
        s < 16,
    ensures
        ((x & y) as u64) == (x as u64) & (y as u64),
        ((x | y) as u64) == (x as u64) | (y as u64),
        ((x ^ y) as u64) == (x as u64) ^ (y as u64),
        ((x >> s) as u64) == (x as u64) >> (s as u64),
        ((x << s) as u64) == ((x as u64) << (s as u64)) & 0xffff,
        ((a as u16) as u32) % 16 == (a % 16) as u32,
{
}

/// Truncation to the unsigned type of the same width keeps the low bits.
proof fn lemma_low_u16(a: u64)
    by (bit_vector)
    ensures
        (a as u16) as u64 == a % 0x1_0000,
{
}

impl IntegerBinOp for u16 {
    open spec fn kind() -> Type {
        Type::U16
    }

    open spec fn word(v: u16) -> u64 {
        v as u64
    }

    fn from_u64(v: u64) -> (r: u16) {
        proof {
            lemma_low_u16(v);
        }
        v as u16
    }

    fn into_u64(v: u16) -> (r: u64) {
        v as u64
    }

    fn integer_bin_op(a: u64, b: u64, op: BinOp) -> (r: u64) {
        let lhs = Self::from_u64(a);
        let rhs = Self::from_u64(b);
        let ghost x = lhs as int;
        let ghost y = rhs as int;
        let ghost m = 0x1_0000int;
        proof {
            let s = ((rhs as u32) % 16) as u16;
            lemma_bits_u16(b, lhs, rhs, s);
            lemma_low_u16(a);
            lemma_low_u16(b);
            assert(s as u64 == shift_amount(Type::U16, b));
            assert(lhs >> ((rhs as u32) % 16) == lhs >> s);
            assert(lhs << ((rhs as u32) % 16) == lhs << s);
            assert(value_of(Type::U16, a) == x);
            assert(value_of(Type::U16, b) == y);
            lemma_congruent(x + y, -1, m);
            lemma_congruent(x + y, 0, m);
            lemma_congruent(x - y, 1, m);
            lemma_congruent(x - y, 0, m);
        }
        let result: u16 = match op {
            BinOp::Add => {
                let r = lhs.wrapping_add(rhs);
                proof {
                    lemma_word(r as int, x + y, m, r as int);
                }
                r
            },
            BinOp::Sub => {
                let r = lhs.wrapping_sub(rhs);
                proof {
                    lemma_word(r as int, x - y, m, r as int);
                }
                r
            },
            BinOp::Mul => {
                let r = lhs.wrapping_mul(rhs);
                proof {
                    vstd::arithmetic::div_mod::lemma_mod_pos_bound(x * y, m);
                }
                r
            },
            BinOp::Div => {
                proof {
                    lemma_div_bounds(x, y);
                    lemma_mod_small(x / y, m);
                }
                lhs / rhs
            },
            BinOp::Mod => {
                proof {
                    lemma_div_bounds(x, y);
                    lemma_fundamental_div_mod(x, y);
                    lemma_mod_small(x % y, m);
                }
                lhs % rhs
            },
            BinOp::Eq => if lhs == rhs { 1 } else { 0 },
            BinOp::Ne => if lhs != rhs { 1 } else { 0 },
            BinOp::Gt => if lhs > rhs { 1 } else { 0 },
            BinOp::Ge => if lhs >= rhs { 1 } else { 0 },
            BinOp::Lt => if lhs < rhs { 1 } else { 0 },
            BinOp::Le => if lhs <= rhs { 1 } else { 0 },
            BinOp::BitAnd => lhs & rhs,
            BinOp::BitOr => lhs | rhs,
            BinOp::Xor => lhs ^ rhs,
            BinOp::Shr => lhs.wrapping_shr(rhs as u32),
            BinOp::Shl => lhs.wrapping_shl(rhs as u32),
            _ => 0,
        };
        Self::into_u64(result)
    }
}

/// Bit-level facts about the unsigned type of the same width.
proof fn lemma_bits_u32(a: u64, x: u32, y: u32, s: u32)
    by (bit_vector)
    requires
        s < 32,
    ensures
        ((x & y) as u64) == (x as u64) & (y as u64),
        ((x | y) as u64) == (x as u64) | (y as u64),
        ((x ^ y) as u64) == (x as u64) ^ (y as u64),
        ((x >> s) as u64) == (x as u64) >> (s as u64),
        ((x << s) as u64) == ((x as u64) << (s as u64)) & 0xffff_ffff,
        ((a as u32) as u32) % 32 == (a % 32) as u32,
{
}

/// Truncation to the unsigned type of the same width keeps the low bits.
proof fn lemma_low_u32(a: u64)
    by (bit_vector)
    ensures
        (a as u32) as u64 == a % 0x1_0000_0000,
{
}

impl IntegerBinOp for u32 {
    open spec fn kind() -> Type {
        Type::U32
    }

    open spec fn word(v: u32) -> u64 {
        v as u64
    }

    fn from_u64(v: u64) -> (r: u32) {
        proof {
            lemma_low_u32(v);
        }
        v as u32
    }

    fn into_u64(v: u32) -> (r: u64) {
        v as u64
    }

    fn integer_bin_op(a: u64, b: u64, op: BinOp) -> (r: u64) {
        let lhs = Self::from_u64(a);
        let rhs = Self::from_u64(b);
        let ghost x = lhs as int;
        let ghost y = rhs as int;
        let ghost m = 0x1_0000_0000int;
        proof {
            let s = ((rhs as u32) % 32) as u32;
            lemma_bits_u32(b, lhs, rhs, s);
            lemma_low_u32(a);
            lemma_low_u32(b);
            assert(s as u64 == shift_amount(Type::U32, b));
            assert(lhs >> ((rhs as u32) % 32) == lhs >> s);
            assert(lhs << ((rhs as u32) % 32) == lhs << s);
            assert(value_of(Type::U32, a) == x);
            assert(value_of(Type::U32, b) == y);
            lemma_congruent(x + y, -1, m);
            lemma_congruent(x + y, 0, m);
            lemma_congruent(x - y, 1, m);
            lemma_congruent(x - y, 0, m);
        }
        let result: u32 = match op {
            BinOp::Add => {
                let r = lhs.wrapping_add(rhs);
                proof {
                    lemma_word(r as int, x + y, m, r as int);
                }
                r
            },
            BinOp::Sub => {
                let r = lhs.wrapping_sub(rhs);
                proof {
                    lemma_word(r as int, x - y, m, r as int);
                }
                r
            },
            BinOp::Mul => {
                let r = lhs.wrapping_mul(rhs);
                proof {
                    vstd::arithmetic::div_mod::lemma_mod_pos_bound(x * y, m);
                }
                r
            },
            BinOp::Div => {
                proof {
                    lemma_div_bounds(x, y);
                    lemma_mod_small(x / y, m);
                }
                lhs / rhs
            },
            BinOp::Mod => {
                proof {
                    lemma_div_bounds(x, y);
                    lemma_fundamental_div_mod(x, y);
                    lemma_mod_small(x % y, m);
                }
                lhs % rhs
            },
            BinOp::Eq => if lhs == rhs { 1 } else { 0 },
            BinOp::Ne => if lhs != rhs { 1 } else { 0 },
            BinOp::Gt => if lhs > rhs { 1 } else { 0 },
            BinOp::Ge => if lhs >= rhs { 1 } else { 0 },
            BinOp::Lt => if lhs < rhs { 1 } else { 0 },
            BinOp::Le => if lhs <= rhs { 1 } else { 0 },
            BinOp::BitAnd => lhs & rhs,
            BinOp::BitOr => lhs | rhs,
            BinOp::Xor => lhs ^ rhs,
            BinOp::Shr => lhs.wrapping_shr(rhs as u32),
            BinOp::Shl => lhs.wrapping_shl(rhs as u32),
            _ => 0,
        };
        Self::into_u64(result)
    }
}

/// Bit-level facts about the unsigned type of the same width.
proof fn lemma_bits_u64(a: u64, x: u64, y: u64, s: u64)
    by (bit_vector)
    requires
        s < 64,
    ensures
        ((x & y) as u64) == (x as u64) & (y as u64),
        ((x | y) as u64) == (x as u64) | (y as u64),
        ((x ^ y) as u64) == (x as u64) ^ (y as u64),
        ((x >> s) as u64) == (x as u64) >> (s as u64),
        ((x << s) as u64) == ((x as u64) << (s as u64)) & 0xffff_ffff_ffff_ffff,
        ((a as u64) as u32) % 64 == (a % 64) as u32,
{
}

/// Truncation to the unsigned type of the same width keeps the low bits.
proof fn lemma_low_u64(a: u64)
    by (bit_vector)
    ensures
        (a as u64) as u64 == a,
{
}

impl IntegerBinOp for u64 {
    open spec fn kind() -> Type {
        Type::U64
    }

    open spec fn word(v: u64) -> u64 {
        v as u64
    }

    fn from_u64(v: u64) -> (r: u64) {
        proof {
            lemma_low_u64(v);
        }
        v as u64
    }

    fn into_u64(v: u64) -> (r: u64) {
        v as u64
    }

    fn integer_bin_op(a: u64, b: u64, op: BinOp) -> (r: u64) {
        let lhs = Self::from_u64(a);
        let rhs = Self::from_u64(b);
        let ghost x = lhs as int;
        let ghost y = rhs as int;
        let ghost m = 0x1_0000_0000_0000_0000int;
        proof {
            let s = ((rhs as u32) % 64) as u64;
            lemma_bits_u64(b, lhs, rhs, s);
            lemma_low_u64(a);
            lemma_low_u64(b);
            assert(s as u64 == shift_amount(Type::U64, b));
            assert(lhs >> ((rhs as u32) % 64) == lhs >> s);
            assert(lhs << ((rhs as u32) % 64) == lhs << s);
            assert(value_of(Type::U64, a) == x);
            assert(value_of(Type::U64, b) == y);
            lemma_congruent(x + y, -1, m);
            lemma_congruent(x + y, 0, m);
            lemma_congruent(x - y, 1, m);
            lemma_congruent(x - y, 0, m);
        }
        let result: u64 = match op {
            BinOp::Add => {
                let r = lhs.wrapping_add(rhs);
                proof {
                    lemma_word(r as int, x + y, m, r as int);
                }
                r
            },
            BinOp::Sub => {
                let r = lhs.wrapping_sub(rhs);
                proof {
                    lemma_word(r as int, x - y, m, r as int);
                }
                r
            },
            BinOp::Mul => {
                let r = lhs.wrapping_mul(rhs);
                proof {
                    vstd::arithmetic::div_mod::lemma_mod_pos_bound(x * y, m);
                }
                r
            },
            BinOp::Div => {
                proof {
                    lemma_div_bounds(x, y);
                    lemma_mod_small(x / y, m);
                }
                lhs / rhs
            },
            BinOp::Mod => {
                proof {
                    lemma_div_bounds(x, y);
                    lemma_fundamental_div_mod(x, y);
                    lemma_mod_small(x % y, m);
                }
                lhs % rhs
            },
            BinOp::Eq => if lhs == rhs { 1 } else { 0 },
            BinOp::Ne => if lhs != rhs { 1 } else { 0 },
            BinOp::Gt => if lhs > rhs { 1 } else { 0 },
            BinOp::Ge => if lhs >= rhs { 1 } else { 0 },
            BinOp::Lt => if lhs < rhs { 1 } else { 0 },
            BinOp::Le => if lhs <= rhs { 1 } else { 0 },
            BinOp::BitAnd => lhs & rhs,
            BinOp::BitOr => lhs | rhs,
            BinOp::Xor => lhs ^ rhs,
            BinOp::Shr => lhs.wrapping_shr(rhs as u32),
            BinOp::Shl => lhs.wrapping_shl(rhs as u32),
            _ => 0,
        };
        Self::into_u64(result)
    }
}

/// Bit-level facts about a signed type and its unsigned counterpart.
proof fn lemma_bits_i8(x: i8, y: i8, s: u8)
    by (bit_vector)
    requires
        s < 8,
    ensures
        (((x & y) as u8) as u64) == ((x as u8) as u64) & ((y as u8) as u64),
        (((x | y) as u8) as u64) == ((x as u8) as u64) | ((y as u8) as u64),
        (((x ^ y) as u8) as u64) == ((x as u8) as u64) ^ ((y as u8) as u64),
        (((x >> s) as u8) as u64) == if x < 0 {
            (((x as u8) as u64) >> (s as u64)) | (0xff ^ (0xffu64 >> (s as u64)))
        } else {
            ((x as u8) as u64) >> (s as u64)
        },
        (((x << s) as u8) as u64) == (((x as u8) as u64) << (s as u64)) & 0xff,
{
}

/// Truncation to a signed type keeps the low bits as its pattern.
proof fn lemma_low_i8(a: u64)
    by (bit_vector)
    ensures
        ((a as i8) as u8) as u64 == a % 0x100,
{
}

/// The shift amount seen by a signed value.
proof fn lemma_amount_i8(a: u64)
    by (bit_vector)
    ensures
        ((a as i8) as u32) % 8 == (a % 8) as u32,
{
}

/// The pattern of a signed value is the value or the value plus the
/// modulus.
proof fn lemma_pattern_i8(v: i8)
    by (bit_vector)
    ensures
        v >= 0 ==> (v as u8) as u64 == v as u64,
        v < 0 ==> (v as u8) as u64 == (v as i64 + 0x100) as u64,
{
}

impl IntegerBinOp for i8 {
    open spec fn kind() -> Type {
        Type::I8
    }

    open spec fn word(v: i8) -> u64 {
        (v as u8) as u64
    }

    fn from_u64(v: u64) -> (r: i8)
        ensures
            r == v as i8,
    {
        proof {
            lemma_low_i8(v);
        }
        v as i8
    }

    fn into_u64(v: i8) -> (r: u64) {
        (v as u8) as u64
    }

    fn integer_bin_op(a: u64, b: u64, op: BinOp) -> (r: u64) {
        let lhs = Self::from_u64(a);
        let rhs = Self::from_u64(b);
        let ghost x = lhs as int;
        let ghost y = rhs as int;
        let ghost m = 0x100int;
        proof {
            let s = ((rhs as u32) % 8) as u8;
            lemma_bits_i8(lhs, rhs, s);
            lemma_amount_i8(b);
            lemma_pattern_i8(lhs);
            lemma_pattern_i8(rhs);
            assert(value_of(Type::I8, a) == x);
            assert(value_of(Type::I8, b) == y);
            assert(s as u64 == shift_amount(Type::I8, b));
            assert(lhs >> ((rhs as u32) % 8) == lhs >> s);
            assert(lhs << ((rhs as u32) % 8) == lhs << s);
            lemma_congruent(x + y, -1, m);
            lemma_congruent(x + y, 0, m);
            lemma_congruent(x + y, 1, m);
            lemma_congruent(x - y, -1, m);
            lemma_congruent(x - y, 0, m);
            lemma_congruent(x - y, 1, m);
        }
        let result: i8 = match op {
            BinOp::Add => {
                let r = lhs.wrapping_add(rhs);
                proof {
                    lemma_pattern_i8(r);
                    lemma_word(r as int, x + y, m, Self::word(r) as int);
                }
                r
            },
            BinOp::Sub => {
                let r = lhs.wrapping_sub(rhs);
                proof {
                    lemma_pattern_i8(r);
                    lemma_word(r as int, x - y, m, Self::word(r) as int);
                }
                r
            },
            BinOp::Mul => {
                let r = lhs.wrapping_mul(rhs);
                proof {
                    lemma_pattern_i8(r);
                    vstd::arithmetic::div_mod::lemma_mod_bound(x * y, m);
                }
                r
            },
            BinOp::Div => {
                proof {
                    lemma_div_bounds(x, y);
                    lemma_trunc(x, y);
                }
                let r = if lhs == i8::MIN && rhs == -1 {
                    i8::MIN
                } else {
                    lhs / rhs
                };
                proof {
                    lemma_pattern_i8(r);
                    lemma_congruent(trunc_div(x, y), 1, m);
                    lemma_congruent(trunc_div(x, y), 0, m);
                    if lhs == i8::MIN && rhs == -1 {
                        lemma_word(r as int, trunc_div(x, y), m, Self::word(r) as int);
                    } else {
                        assert(r as int == trunc_div(x, y));
                        lemma_word(r as int, trunc_div(x, y), m, Self::word(r) as int);
                    }
                }
                r
            },
            BinOp::Mod => {
                proof {
                    lemma_div_bounds(x, y);
                    lemma_trunc(x, y);
                }
                let r = if lhs == i8::MIN && rhs == -1 {
                    0
                } else {
                    lhs % rhs
                };
                proof {
                    lemma_pattern_i8(r);
                    lemma_congruent(trunc_rem(x, y), 0, m);
                    assert(r as int == trunc_rem(x, y));
                    lemma_word(r as int, trunc_rem(x, y), m, Self::word(r) as int);
                }
                r
            },
            BinOp::Eq => if lhs == rhs { 1 } else { 0 },
            BinOp::Ne => if lhs != rhs { 1 } else { 0 },
            BinOp::Gt => if lhs > rhs { 1 } else { 0 },
            BinOp::Ge => if lhs >= rhs { 1 } else { 0 },
            BinOp::Lt => if lhs < rhs { 1 } else { 0 },
            BinOp::Le => if lhs <= rhs { 1 } else { 0 },
            BinOp::BitAnd => lhs & rhs,
            BinOp::BitOr => lhs | rhs,
            BinOp::Xor => lhs ^ rhs,
            BinOp::Shr => lhs.wrapping_shr(rhs as u32),
            BinOp::Shl => lhs.wrapping_shl(rhs as u32),
            _ => 0,
        };
        Self::into_u64(result)
    }
}

/// Bit-level facts about a signed type and its unsigned counterpart.
proof fn lemma_bits_i16(x: i16, y: i16, s: u16)
    by (bit_vector)
    requires
        s < 16,
    ensures
        (((x & y) as u16) as u64) == ((x as u16) as u64) & ((y as u16) as u64),
        (((x | y) as u16) as u64) == ((x as u16) as u64) | ((y as u16) as u64),
        (((x ^ y) as u16) as u64) == ((x as u16) as u64) ^ ((y as u16) as u64),
        (((x >> s) as u16) as u64) == if x < 0 {
            (((x as u16) as u64) >> (s as u64)) | (0xffff ^ (0xffffu64 >> (s as u64)))
        } else {
            ((x as u16) as u64) >> (s as u64)
        },
        (((x << s) as u16) as u64) == (((x as u16) as u64) << (s as u64)) & 0xffff,
{
}

/// Truncation to a signed type keeps the low bits as its pattern.
proof fn lemma_low_i16(a: u64)
    by (bit_vector)
    ensures
        ((a as i16) as u16) as u64 == a % 0x1_0000,
{
}

/// The shift amount seen by a signed value.
proof fn lemma_amount_i16(a: u64)
    by (bit_vector)
    ensures
        ((a as i16) as u32) % 16 == (a % 16) as u32,
{
}

/// The pattern of a signed value is the value or the value plus the
/// modulus.
proof fn lemma_pattern_i16(v: i16)
    by (bit_vector)
    ensures
        v >= 0 ==> (v as u16) as u64 == v as u64,
        v < 0 ==> (v as u16) as u64 == (v as i64 + 0x1_0000) as u64,
{
}

impl IntegerBinOp for i16 {
    open spec fn kind() -> Type {
        Type::I16
    }

    open spec fn word(v: i16) -> u64 {
        (v as u16) as u64
    }

    fn from_u64(v: u64) -> (r: i16)
        ensures
            r == v as i16,
    {
        proof {
            lemma_low_i16(v);
        }
        v as i16
    }

    fn into_u64(v: i16) -> (r: u64) {
        (v as u16) as u64
    }

    fn integer_bin_op(a: u64, b: u64, op: BinOp) -> (r: u64) {
        let lhs = Self::from_u64(a);
        let rhs = Self::from_u64(b);
        let ghost x = lhs as int;
        let ghost y = rhs as int;
        let ghost m = 0x1_0000int;
        proof {
            let s = ((rhs as u32) % 16) as u16;
            lemma_bits_i16(lhs, rhs, s);
            lemma_amount_i16(b);
            lemma_pattern_i16(lhs);
            lemma_pattern_i16(rhs);
            assert(value_of(Type::I16, a) == x);
            assert(value_of(Type::I16, b) == y);
            assert(s as u64 == shift_amount(Type::I16, b));
            assert(lhs >> ((rhs as u32) % 16) == lhs >> s);
            assert(lhs << ((rhs as u32) % 16) == lhs << s);
            lemma_congruent(x + y, -1, m);
            lemma_congruent(x + y, 0, m);
            lemma_congruent(x + y, 1, m);
            lemma_congruent(x - y, -1, m);
            lemma_congruent(x - y, 0, m);
            lemma_congruent(x - y, 1, m);
        }
        let result: i16 = match op {
            BinOp::Add => {
                let r = lhs.wrapping_add(rhs);
                proof {
                    lemma_pattern_i16(r);
                    lemma_word(r as int, x + y, m, Self::word(r) as int);
                }
                r
            },
            BinOp::Sub => {
                let r = lhs.wrapping_sub(rhs);
                proof {
                    lemma_pattern_i16(r);
                    lemma_word(r as int, x - y, m, Self::word(r) as int);
                }
                r
            },
            BinOp::Mul => {
                let r = lhs.wrapping_mul(rhs);
                proof {
                    lemma_pattern_i16(r);
                    vstd::arithmetic::div_mod::lemma_mod_bound(x * y, m);
                }
                r
            },
            BinOp::Div => {
                proof {
                    lemma_div_bounds(x, y);
                    lemma_trunc(x, y);
                }
                let r = if lhs == i16::MIN && rhs == -1 {
                    i16::MIN
                } else {
                    lhs / rhs
                };
                proof {
                    lemma_pattern_i16(r);
                    lemma_congruent(trunc_div(x, y), 1, m);
                    lemma_congruent(trunc_div(x, y), 0, m);
                    if lhs == i16::MIN && rhs == -1 {
                        lemma_word(r as int, trunc_div(x, y), m, Self::word(r) as int);
                    } else {
                        assert(r as int == trunc_div(x, y));
                        lemma_word(r as int, trunc_div(x, y), m, Self::word(r) as int);
                    }
                }
                r
            },
            BinOp::Mod => {
                proof {
                    lemma_div_bounds(x, y);
                    lemma_trunc(x, y);
                }
                let r = if lhs == i16::MIN && rhs == -1 {
                    0
                } else {
                    lhs % rhs
                };
                proof {
                    lemma_pattern_i16(r);
                    lemma_congruent(trunc_rem(x, y), 0, m);
                    assert(r as int == trunc_rem(x, y));
                    lemma_word(r as int, trunc_rem(x, y), m, Self::word(r) as int);
                }
                r
            },
            BinOp::Eq => if lhs == rhs { 1 } else { 0 },
            BinOp::Ne => if lhs != rhs { 1 } else { 0 },
            BinOp::Gt => if lhs > rhs { 1 } else { 0 },
            BinOp::Ge => if lhs >= rhs { 1 } else { 0 },
            BinOp::Lt => if lhs < rhs { 1 } else { 0 },
            BinOp::Le => if lhs <= rhs { 1 } else { 0 },
            BinOp::BitAnd => lhs & rhs,
            BinOp::BitOr => lhs | rhs,
            BinOp::Xor => lhs ^ rhs,
            BinOp::Shr => lhs.wrapping_shr(rhs as u32),
            BinOp::Shl => lhs.wrapping_shl(rhs as u32),
            _ => 0,
        };
        Self::into_u64(result)
    }
}

/// Bit-level facts about a signed type and its unsigned counterpart.
proof fn lemma_bits_i32(x: i32, y: i32, s: u32)
    by (bit_vector)
    requires
        s < 32,
    ensures
        (((x & y) as u32) as u64) == ((x as u32) as u64) & ((y as u32) as u64),
        (((x | y) as u32) as u64) == ((x as u32) as u64) | ((y as u32) as u64),
        (((x ^ y) as u32) as u64) == ((x as u32) as u64) ^ ((y as u32) as u64),
        (((x >> s) as u32) as u64) == if x < 0 {
            (((x as u32) as u64) >> (s as u64)) | (0xffff_ffff ^ (0xffff_ffffu64 >> (s as u64)))
        } else {
            ((x as u32) as u64) >> (s as u64)
        },
        (((x << s) as u32) as u64) == (((x as u32) as u64) << (s as u64)) & 0xffff_ffff,
{
}

/// Truncation to a signed type keeps the low bits as its pattern.
proof fn lemma_low_i32(a: u64)
    by (bit_vector)
    ensures
        ((a as i32) as u32) as u64 == a % 0x1_0000_0000,
{
}

/// The shift amount seen by a signed value.
proof fn lemma_amount_i32(a: u64)
    by (bit_vector)
    ensures
        ((a as i32) as u32) % 32 == (a % 32) as u32,
{
}

/// The pattern of a signed value is the value or the value plus the
/// modulus.
proof fn lemma_pattern_i32(v: i32)
    by (bit_vector)
    ensures
        v >= 0 ==> (v as u32) as u64 == v as u64,
        v < 0 ==> (v as u32) as u64 == (v as i64 + 0x1_0000_0000) as u64,
{
}

impl IntegerBinOp for i32 {
    open spec fn kind() -> Type {
        Type::I32
    }

    open spec fn word(v: i32) -> u64 {
        (v as u32) as u64
    }

    fn from_u64(v: u64) -> (r: i32)
        ensures
            r == v as i32,
    {
        proof {
            lemma_low_i32(v);
        }
        v as i32
    }

    fn into_u64(v: i32) -> (r: u64) {
        (v as u32) as u64
    }

    fn integer_bin_op(a: u64, b: u64, op: BinOp) -> (r: u64) {
        let lhs = Self::from_u64(a);
        let rhs = Self::from_u64(b);
        let ghost x = lhs as int;
        let ghost y = rhs as int;
        let ghost m = 0x1_0000_0000int;
        proof {
            let s = ((rhs as u32) % 32) as u32;
            lemma_bits_i32(lhs, rhs, s);
            lemma_amount_i32(b);
            lemma_pattern_i32(lhs);
            lemma_pattern_i32(rhs);
            assert(value_of(Type::I32, a) == x);
            assert(value_of(Type::I32, b) == y);
            assert(s as u64 == shift_amount(Type::I32, b));
            assert(lhs >> ((rhs as u32) % 32) == lhs >> s);
            assert(lhs << ((rhs as u32) % 32) == lhs << s);
            lemma_congruent(x + y, -1, m);
            lemma_congruent(x + y, 0, m);
            lemma_congruent(x + y, 1, m);
            lemma_congruent(x - y, -1, m);
            lemma_congruent(x - y, 0, m);
            lemma_congruent(x - y, 1, m);
        }
        let result: i32 = match op {
            BinOp::Add => {
                let r = lhs.wrapping_add(rhs);
                proof {
                    lemma_pattern_i32(r);
                    lemma_word(r as int, x + y, m, Self::word(r) as int);
                }
                r
            },
            BinOp::Sub => {
                let r = lhs.wrapping_sub(rhs);
                proof {
                    lemma_pattern_i32(r);
                    lemma_word(r as int, x - y, m, Self::word(r) as int);
                }
                r
            },
            BinOp::Mul => {
                let r = lhs.wrapping_mul(rhs);
                proof {
                    lemma_pattern_i32(r);
                    vstd::arithmetic::div_mod::lemma_mod_bound(x * y, m);
                }
                r
            },
            BinOp::Div => {
                proof {
                    lemma_div_bounds(x, y);
                    lemma_trunc(x, y);
                }
                let r = if lhs == i32::MIN && rhs == -1 {
                    i32::MIN
                } else {
                    lhs / rhs
                };
                proof {
                    lemma_pattern_i32(r);
                    lemma_congruent(trunc_div(x, y), 1, m);
                    lemma_congruent(trunc_div(x, y), 0, m);
                    if lhs == i32::MIN && rhs == -1 {
                        lemma_word(r as int, trunc_div(x, y), m, Self::word(r) as int);
                    } else {
                        assert(r as int == trunc_div(x, y));
                        lemma_word(r as int, trunc_div(x, y), m, Self::word(r) as int);
                    }
                }
                r
            },
            BinOp::Mod => {
                proof {
                    lemma_div_bounds(x, y);
                    lemma_trunc(x, y);
                }
                let r = if lhs == i32::MIN && rhs == -1 {
                    0
                } else {
                    lhs % rhs
                };
                proof {
                    lemma_pattern_i32(r);
                    lemma_congruent(trunc_rem(x, y), 0, m);
                    assert(r as int == trunc_rem(x, y));
                    lemma_word(r as int, trunc_rem(x, y), m, Self::word(r) as int);
                }
                r
            },
            BinOp::Eq => if lhs == rhs { 1 } else { 0 },
            BinOp::Ne => if lhs != rhs { 1 } else { 0 },
            BinOp::Gt => if lhs > rhs { 1 } else { 0 },
            BinOp::Ge => if lhs >= rhs { 1 } else { 0 },
            BinOp::Lt => if lhs < rhs { 1 } else { 0 },
            BinOp::Le => if lhs <= rhs { 1 } else { 0 },
            BinOp::BitAnd => lhs & rhs,
            BinOp::BitOr => lhs | rhs,
            BinOp::Xor => lhs ^ rhs,
            BinOp::Shr => lhs.wrapping_shr(rhs as u32),
            BinOp::Shl => lhs.wrapping_shl(rhs as u32),
            _ => 0,
        };
        Self::into_u64(result)
    }
}

/// Bit-level facts about a signed type and its unsigned counterpart.
proof fn lemma_bits_i64(x: i64, y: i64, s: u64)
    by (bit_vector)
    requires
        s < 64,
    ensures
        (((x & y) as u64) as u64) == ((x as u64) as u64) & ((y as u64) as u64),
        (((x | y) as u64) as u64) == ((x as u64) as u64) | ((y as u64) as u64),
        (((x ^ y) as u64) as u64) == ((x as u64) as u64) ^ ((y as u64) as u64),
        (((x >> s) as u64) as u64) == if x < 0 {
            (((x as u64) as u64) >> (s as u64)) | (0xffff_ffff_ffff_ffff ^ (0xffff_ffff_ffff_ffffu64 >> (s as u64)))
        } else {
            ((x as u64) as u64) >> (s as u64)
        },
        (((x << s) as u64) as u64) == (((x as u64) as u64) << (s as u64)) & 0xffff_ffff_ffff_ffff,
{
}

/// Truncation to a signed type keeps the low bits as its pattern.
proof fn lemma_low_i64(a: u64)
    by (bit_vector)
    ensures
        ((a as i64) as u64) as u64 == a,
{
}

/// The shift amount seen by a signed value.
proof fn lemma_amount_i64(a: u64)
    by (bit_vector)
    ensures
        ((a as i64) as u32) % 64 == (a % 64) as u32,
{
}

/// The pattern of a signed value is the value or the value plus the
/// modulus.
proof fn lemma_pattern_i64(v: i64)
    by (bit_vector)
    ensures
        v >= 0 ==> (v as u64) as u64 == v as u64,
        v < 0 ==> (v as u64) as u64 == (v as i128 + 0x1_0000_0000_0000_0000) as u64,
{
}

impl IntegerBinOp for i64 {
    open spec fn kind() -> Type {
        Type::I64
    }

    open spec fn word(v: i64) -> u64 {
        (v as u64) as u64
    }

    fn from_u64(v: u64) -> (r: i64)
        ensures
            r == v as i64,
    {
        proof {
            lemma_low_i64(v);
        }
        v as i64
    }

    fn into_u64(v: i64) -> (r: u64) {
        (v as u64) as u64
    }

    fn integer_bin_op(a: u64, b: u64, op: BinOp) -> (r: u64) {
        let lhs = Self::from_u64(a);
        let rhs = Self::from_u64(b);
        let ghost x = lhs as int;
        let ghost y = rhs as int;
        let ghost m = 0x1_0000_0000_0000_0000int;
        proof {
            let s = ((rhs as u32) % 64) as u64;
            lemma_bits_i64(lhs, rhs, s);
            lemma_amount_i64(b);
            lemma_pattern_i64(lhs);
            lemma_pattern_i64(rhs);
            assert(value_of(Type::I64, a) == x);
            assert(value_of(Type::I64, b) == y);
            assert(s as u64 == shift_amount(Type::I64, b));
            assert(lhs >> ((rhs as u32) % 64) == lhs >> s);
            assert(lhs << ((rhs as u32) % 64) == lhs << s);
            lemma_congruent(x + y, -1, m);
            lemma_congruent(x + y, 0, m);
            lemma_congruent(x + y, 1, m);
            lemma_congruent(x - y, -1, m);
            lemma_congruent(x - y, 0, m);
            lemma_congruent(x - y, 1, m);
        }
        let result: i64 = match op {
            BinOp::Add => {
                let r = lhs.wrapping_add(rhs);
                proof {
                    lemma_pattern_i64(r);
                    lemma_word(r as int, x + y, m, Self::word(r) as int);
                }
                r
            },
            BinOp::Sub => {
                let r = lhs.wrapping_sub(rhs);
                proof {
                    lemma_pattern_i64(r);
                    lemma_word(r as int, x - y, m, Self::word(r) as int);
                }
                r
            },
            BinOp::Mul => {
                let r = lhs.wrapping_mul(rhs);
                proof {
                    lemma_pattern_i64(r);
                    vstd::arithmetic::div_mod::lemma_mod_bound(x * y, m);
                }
                r
            },
            BinOp::Div => {
                proof {
                    lemma_div_bounds(x, y);
                    lemma_trunc(x, y);
                }
                let r = if lhs == i64::MIN && rhs == -1 {
                    i64::MIN
                } else {
                    lhs / rhs
                };
                proof {
                    lemma_pattern_i64(r);
                    lemma_congruent(trunc_div(x, y), 1, m);
                    lemma_congruent(trunc_div(x, y), 0, m);
                    if lhs == i64::MIN && rhs == -1 {
                        lemma_word(r as int, trunc_div(x, y), m, Self::word(r) as int);
                    } else {
                        assert(r as int == trunc_div(x, y));
                        lemma_word(r as int, trunc_div(x, y), m, Self::word(r) as int);
                    }
                }
                r
            },
            BinOp::Mod => {
                proof {
                    lemma_div_bounds(x, y);
                    lemma_trunc(x, y);
                }
                let r = if lhs == i64::MIN && rhs == -1 {
                    0
                } else {
                    lhs % rhs
                };
                proof {
                    lemma_pattern_i64(r);
                    lemma_congruent(trunc_rem(x, y), 0, m);
                    assert(r as int == trunc_rem(x, y));
                    lemma_word(r as int, trunc_rem(x, y), m, Self::word(r) as int);
                }
                r
            },
            BinOp::Eq => if lhs == rhs { 1 } else { 0 },
            BinOp::Ne => if lhs != rhs { 1 } else { 0 },
            BinOp::Gt => if lhs > rhs { 1 } else { 0 },
            BinOp::Ge => if lhs >= rhs { 1 } else { 0 },
            BinOp::Lt => if lhs < rhs { 1 } else { 0 },
            BinOp::Le => if lhs <= rhs { 1 } else { 0 },
            BinOp::BitAnd => lhs & rhs,
            BinOp::BitOr => lhs | rhs,
            BinOp::Xor => lhs ^ rhs,
            BinOp::Shr => lhs.wrapping_shr(rhs as u32),
            BinOp::Shl => lhs.wrapping_shl(rhs as u32),
            _ => 0,
        };
        Self::into_u64(result)
    }
}

/// The literal that an operator node over two integer literals folds to,
/// in the node's type.
pub fn fold_literal_leaf(ty: Type, lhs: u64, rhs: u64, op: BinOp) -> (r: u64)
    requires
        ty.spec_is_integer(),
        defined(ty, rhs, op),
    ensures
        r == fold_value(ty, lhs, rhs, op),
{
    match ty {
        Type::U8 => u8::integer_bin_op(lhs, rhs, op),
        Type::U16 => u16::integer_bin_op(lhs, rhs, op),
        Type::U32 => u32::integer_bin_op(lhs, rhs, op),
        Type::U64 => u64::integer_bin_op(lhs, rhs, op),
        Type::I8 => i8::integer_bin_op(lhs, rhs, op),
        Type::I16 => i16::integer_bin_op(lhs, rhs, op),
        Type::I32 => i32::integer_bin_op(lhs, rhs, op),
        _ => i64::integer_bin_op(lhs, rhs, op),
    }
}

/// Folded comparisons follow the order of the values: each gives one
/// exactly when its relation holds between the operands' values, else zero;
/// `>=` and `<`, `>` and `<=`, `==` and `!=` are each other's negation, `>`
/// and `>=` are `<` and `<=` with the operands swapped, every value is `>=`
/// and `<=` itself, and two operands are `==` exactly when their bit
/// patterns are the same.
pub proof fn law_folded_comparisons(ty: Type, a: u64, b: u64)
    requires
        ty.spec_is_integer(),
    ensures
        fold_value(ty, a, b, BinOp::Eq) == 1 <==> value_of(ty, a) == value_of(ty, b),
        fold_value(ty, a, b, BinOp::Ne) == 1 <==> value_of(ty, a) != value_of(ty, b),
        fold_value(ty, a, b, BinOp::Gt) == 1 <==> value_of(ty, a) > value_of(ty, b),
        fold_value(ty, a, b, BinOp::Ge) == 1 <==> value_of(ty, a) >= value_of(ty, b),
        fold_value(ty, a, b, BinOp::Lt) == 1 <==> value_of(ty, a) < value_of(ty, b),
        fold_value(ty, a, b, BinOp::Le) == 1 <==> value_of(ty, a) <= value_of(ty, b),
        fold_value(ty, a, b, BinOp::Ge) + fold_value(ty, a, b, BinOp::Lt) == 1,
        fold_value(ty, a, b, BinOp::Gt) + fold_value(ty, a, b, BinOp::Le) == 1,
        fold_value(ty, a, b, BinOp::Eq) + fold_value(ty, a, b, BinOp::Ne) == 1,
        fold_value(ty, a, b, BinOp::Gt) == fold_value(ty, b, a, BinOp::Lt),
        fold_value(ty, a, b, BinOp::Ge) == fold_value(ty, b, a, BinOp::Le),
        fold_value(ty, a, a, BinOp::Ge) == 1 && fold_value(ty, a, a, BinOp::Le) == 1,
        fold_value(ty, a, a, BinOp::Gt) == 0 && fold_value(ty, a, a, BinOp::Lt) == 0,
        fold_value(ty, a, b, BinOp::Eq) == 1 <==> pattern(ty, a) == pattern(ty, b),
{
    let m = modulus(ty);
    vstd::arithmetic::div_mod::lemma_mod_bound(a as int, m);
    vstd::arithmetic::div_mod::lemma_mod_bound(b as int, m);
}

/// Folded addition, subtraction and multiplication wrap around: the value
/// each gives is the exact result up to a multiple of two to the type's
/// width. Addition and multiplication do not depend on the order of their
/// operands, and subtracting what was added gives back the first operand.
pub proof fn law_folded_arithmetic(ty: Type, a: u64, b: u64)
    requires
        ty.spec_is_integer(),
    ensures
        (value_of(ty, fold_value(ty, a, b, BinOp::Add)) - (value_of(ty, a) + value_of(ty, b)))
            % modulus(ty) == 0,
        (value_of(ty, fold_value(ty, a, b, BinOp::Sub)) - (value_of(ty, a) - value_of(ty, b)))
            % modulus(ty) == 0,
        (value_of(ty, fold_value(ty, a, b, BinOp::Mul)) - value_of(ty, a) * value_of(ty, b))
            % modulus(ty) == 0,
        fold_value(ty, a, b, BinOp::Add) == fold_value(ty, b, a, BinOp::Add),
        fold_value(ty, a, b, BinOp::Mul) == fold_value(ty, b, a, BinOp::Mul),
        fold_value(ty, fold_value(ty, a, b, BinOp::Add), b, BinOp::Sub) == pattern(ty, a),
{
    let m = modulus(ty);
    let x = value_of(ty, a);
    let y = value_of(ty, b);
    let s = fold_value(ty, a, b, BinOp::Add);
    assert(s == wrap(ty, x + y) as u64);
    assert(fold_value(ty, a, b, BinOp::Sub) == wrap(ty, x - y) as u64);
    assert(fold_value(ty, a, b, BinOp::Mul) == wrap(ty, x * y) as u64);
    assert(fold_value(ty, b, a, BinOp::Add) == wrap(ty, y + x) as u64);
    assert(fold_value(ty, b, a, BinOp::Mul) == wrap(ty, y * x) as u64);
    assert(x * y == y * x) by (nonlinear_arith);
    lemma_wrap_value(ty, x + y);
    lemma_wrap_value(ty, x - y);
    lemma_wrap_value(ty, x * y);
    let v = value_of(ty, s);
    assert(fold_value(ty, s, b, BinOp::Sub) == wrap(ty, v - y) as u64);
    lemma_wrap_value(ty, v - y);
    lemma_value_congruent(ty, a);
    lemma_sum_of_multiples(v - (x + y), x - a as int, m);
    assert((v - y) - a as int == (v - (x + y)) + (x - a as int));
    lemma_congruent_mod(v - y, a as int, m);
}

/// The sum of two multiples of `m` is one.
proof fn lemma_sum_of_multiples(u: int, v: int, m: int)
    requires
        m > 0,
        u % m == 0,
        v % m == 0,
    ensures
        (u + v) % m == 0,
{
    vstd::arithmetic::div_mod::lemma_fundamental_div_mod(u, m);
    vstd::arithmetic::div_mod::lemma_fundamental_div_mod(v, m);
    let k = u / m + v / m;
    assert(u + v == k * m) by (nonlinear_arith)
        requires
            u == m * (u / m) + 0,
            v == m * (v / m) + 0,
            k == u / m + v / m,
    ;
    vstd::arithmetic::div_mod::lemma_mod_multiples_basic(k, m);
}

/// Folded division rounds toward zero and the remainder goes with it: for
/// a divisor other than zero, quotient times divisor plus remainder is the
/// dividend up to a multiple of two to the width (the quotient wraps only
/// where it does not fit, as the least value divided by minus one), the
/// remainder is smaller than the divisor in size and is zero or has the
/// dividend's sign.
pub proof fn law_folded_division(ty: Type, a: u64, b: u64)
    requires
        ty.spec_is_integer(),
        value_of(ty, b) != 0,
    ensures
        ({
            let x = value_of(ty, a);
            let y = value_of(ty, b);
            let q = value_of(ty, fold_value(ty, a, b, BinOp::Div));
            let r = value_of(ty, fold_value(ty, a, b, BinOp::Mod));
            &&& (y * q + r - x) % modulus(ty) == 0
            &&& abs(r) < abs(y)
            &&& r == 0 || (r < 0) == (x < 0)
        }),
{
    let m = modulus(ty);
    let x = value_of(ty, a);
    let y = value_of(ty, b);
    let td = trunc_div(x, y);
    let tr = trunc_rem(x, y);
    assert(fold_value(ty, a, b, BinOp::Div) == wrap(ty, td) as u64);
    assert(fold_value(ty, a, b, BinOp::Mod) == wrap(ty, tr) as u64);
    lemma_trunc_remainder(x, y);
    lemma_value_range(ty, a);
    lemma_value_range(ty, b);
    lemma_wrap_value(ty, td);
    lemma_wrap_value(ty, tr);
    let q = value_of(ty, wrap(ty, td) as u64);
    let r = value_of(ty, wrap(ty, tr) as u64);
    lemma_value_range(ty, wrap(ty, tr) as u64);
    lemma_small_congruent(r, tr, m);
    vstd::arithmetic::div_mod::lemma_fundamental_div_mod(q - td, m);
    let k = (q - td) / m;
    assert(y * q + r - x == (y * k) * m) by (nonlinear_arith)
        requires
            q - td == m * k + 0,
            r == tr,
            tr == x - y * td,
    ;
    vstd::arithmetic::div_mod::lemma_mod_multiples_basic(y * k, m);
}

/// What truncating division gives: the remainder is smaller than the
/// divisor in size and is zero or has the dividend's sign.
proof fn lemma_trunc_remainder(x: int, y: int)
    requires
        y != 0,
    ensures
        abs(trunc_rem(x, y)) < abs(y),
        trunc_rem(x, y) == 0 || (trunc_rem(x, y) < 0) == (x < 0),
        trunc_rem(x, y) == x - y * trunc_div(x, y),
{
    let ax = abs(x);
    let ay = abs(y);
    vstd::arithmetic::div_mod::lemma_fundamental_div_mod(ax, ay);
    let q0 = ax / ay;
    let r0 = ax % ay;
    vstd::arithmetic::div_mod::lemma_mod_bound(ax, ay);
    let tr = trunc_rem(x, y);
    if x >= 0 && y > 0 {
        assert(tr == r0) by (nonlinear_arith)
            requires
                ax == ay * q0 + r0,
                ax == x,
                ay == y,
                tr == x - y * q0,
        ;
    } else if x >= 0 {
        assert(tr == r0) by (nonlinear_arith)
            requires
                ax == ay * q0 + r0,
                ax == x,
                ay == -y,
                tr == x - y * (-q0),
        ;
    } else if y > 0 {
        assert(tr == -r0) by (nonlinear_arith)
            requires
                ax == ay * q0 + r0,
                ax == -x,
                ay == y,
                tr == x - y * (-q0),
        ;
    } else {
        assert(tr == -r0) by (nonlinear_arith)
            requires
                ax == ay * q0 + r0,
                ax == -x,
                ay == -y,
                tr == x - y * q0,
        ;
    }
}

/// The value held in a word lies in the range of its type.
proof fn lemma_value_range(ty: Type, a: u64)
    requires
        ty.spec_is_integer(),
    ensures
        is_signed(ty) ==> -(modulus(ty) / 2) <= value_of(ty, a) < modulus(ty) / 2,
        !is_signed(ty) ==> 0 <= value_of(ty, a) < modulus(ty),
{
    vstd::arithmetic::div_mod::lemma_mod_bound(a as int, modulus(ty));
}

/// Two integers that differ by a multiple of `m` and lie less than `m`
/// apart are equal.
proof fn lemma_small_congruent(u: int, v: int, m: int)
    requires
        m > 0,
        (u - v) % m == 0,
        -m < u - v < m,
    ensures
        u == v,
{
    vstd::arithmetic::div_mod::lemma_fundamental_div_mod(u - v, m);
    let k = (u - v) / m;
    assert(u - v == m * k);
    if k == 0 {
        assert(m * k == 0) by (nonlinear_arith)
            requires
                k == 0,
        ;
    } else if k > 0 {
        assert(m * k >= m) by (nonlinear_arith)
            requires
                k > 0,
                m > 0,
        ;
    } else if k < 0 {
        assert(m * k <= -m) by (nonlinear_arith)
            requires
                k < 0,
                m > 0,
        ;
    }
}

/// Folded bitwise operations: a conjunction keeps only bits of each
/// operand, a disjunction keeps every bit of each, and the exclusive or is
/// the bits of the disjunction that are not in the conjunction; none of the
/// three depends on the order of its operands, and a value excluded from
/// itself leaves nothing.
pub proof fn law_folded_bitwise(ty: Type, a: u64, b: u64)
    requires
        ty.spec_is_integer(),
    ensures
        fold_value(ty, a, b, BinOp::BitAnd) & pattern(ty, a) == fold_value(ty, a, b, BinOp::BitAnd),
        fold_value(ty, a, b, BinOp::BitOr) & pattern(ty, a) == pattern(ty, a),
        fold_value(ty, a, b, BinOp::BitAnd) + fold_value(ty, a, b, BinOp::Xor) == fold_value(
            ty,
            a,
            b,
            BinOp::BitOr,
        ),
        fold_value(ty, a, b, BinOp::BitAnd) == fold_value(ty, b, a, BinOp::BitAnd),
        fold_value(ty, a, b, BinOp::BitOr) == fold_value(ty, b, a, BinOp::BitOr),
        fold_value(ty, a, b, BinOp::Xor) == fold_value(ty, b, a, BinOp::Xor),
        fold_value(ty, a, a, BinOp::Xor) == 0,
{
    let pa = pattern(ty, a);
    let pb = pattern(ty, b);
    assert(fold_value(ty, a, b, BinOp::BitAnd) == pa & pb);
    assert(fold_value(ty, a, b, BinOp::BitOr) == pa | pb);
    assert(fold_value(ty, a, b, BinOp::Xor) == pa ^ pb);
    assert(fold_value(ty, b, a, BinOp::BitAnd) == pb & pa);
    assert(fold_value(ty, b, a, BinOp::BitOr) == pb | pa);
    assert(fold_value(ty, b, a, BinOp::Xor) == pb ^ pa);
    assert(fold_value(ty, a, a, BinOp::Xor) == pa ^ pa);
    assert((pa & pb) & pa == pa & pb) by (bit_vector);
    assert((pa | pb) & pa == pa) by (bit_vector);
    assert((pa & pb) + (pa ^ pb) == (pa | pb)) by (bit_vector);
    assert(pa & pb == pb & pa && pa | pb == pb | pa && pa ^ pb == pb ^ pa) by (bit_vector);
    assert(pa ^ pa == 0) by (bit_vector);
}

/// A folded right shift of an unsigned value divides it by two to the
/// shift amount, the amount taken modulo the width.
pub proof fn law_folded_unsigned_shift(ty: Type, a: u64, b: u64)
    requires
        ty.spec_is_integer(),
        !is_signed(ty),
    ensures
        fold_value(ty, a, b, BinOp::Shr) as int == value_of(ty, a) / vstd::arithmetic::power2::pow2(
            shift_amount(ty, b) as nat,
        ) as int,
{
    let pa = pattern(ty, a);
    let k = shift_amount(ty, b);
    lemma_value_range(ty, a);
    vstd::arithmetic::div_mod::lemma_mod_bound(a as int, modulus(ty));
    assert(k < 64) by {
        vstd::arithmetic::div_mod::lemma_mod_bound(b as int, bits(ty) as int);
    }
    assert(fold_value(ty, a, b, BinOp::Shr) == pa >> k);
    vstd::bits::lemma_u64_shr_is_div(pa, k);
}

/// A shift left of a 64-bit word by less than 64 multiplies it by two to
/// the amount, dropping the bits that pass the top.
proof fn lemma_shl_truncates(x: u64, k: u64)
    requires
        k < 64,
    ensures
        (x << k) as int == (x as int * vstd::arithmetic::power2::pow2(k as nat) as int)
            % 0x1_0000_0000_0000_0000int,
    decreases k,
{
    let big = 0x1_0000_0000_0000_0000int;
    if k == 0 {
        assert(x << 0u64 == x) by (bit_vector);
        vstd::arithmetic::power2::lemma2_to64();
        vstd::arithmetic::div_mod::lemma_small_mod(x as nat, big as nat);
    } else {
        let j = (k - 1) as u64;
        lemma_shl_truncates(x, j);
        assert((x << k) as int == ((x << j) as int * 2) % 0x1_0000_0000_0000_0000int) by (bit_vector)
            requires
                0 < k < 64,
                j == k - 1,
        ;
        let p = vstd::arithmetic::power2::pow2(j as nat) as int;
        vstd::arithmetic::power2::lemma_pow2_unfold(k as nat);
        vstd::arithmetic::div_mod::lemma_mul_mod_noop_left(x as int * p, 2, big);
        assert(x as int * p * 2 == x as int * (2 * p)) by (nonlinear_arith);
    }
}

/// Keeping the bits of a type's mask is taking the remainder by its
/// modulus.
proof fn lemma_mask_is_mod(ty: Type, y: u64)
    requires
        ty.spec_is_integer(),
    ensures
        (y & mask(ty)) as int == (y as int) % modulus(ty),
{
    if modulus(ty) == 0x100 {
        assert(y & 0xffu64 == y % 0x100) by (bit_vector);
    } else if modulus(ty) == 0x1_0000 {
        assert(y & 0xffffu64 == y % 0x1_0000) by (bit_vector);
    } else if modulus(ty) == 0x1_0000_0000 {
        assert(y & 0xffff_ffffu64 == y % 0x1_0000_0000) by (bit_vector);
    } else {
        assert(y & 0xffff_ffff_ffff_ffffu64 == y) by (bit_vector);
        vstd::arithmetic::div_mod::lemma_small_mod(y as nat, modulus(ty) as nat);
    }
}

/// A folded shift left multiplies by two to the shift amount, the amount
/// taken modulo the width, and wraps around: its value is the exact
/// product up to a multiple of two to the width.
pub proof fn law_folded_left_shift(ty: Type, a: u64, b: u64)
    requires
        ty.spec_is_integer(),
    ensures
        (value_of(ty, fold_value(ty, a, b, BinOp::Shl)) - value_of(ty, a) * vstd::arithmetic::power2::pow2(
            shift_amount(ty, b) as nat,
        ) as int) % modulus(ty) == 0,
{
    let m = modulus(ty);
    let big = 0x1_0000_0000_0000_0000int;
    let x = value_of(ty, a);
    let pa = pattern(ty, a);
    let k = shift_amount(ty, b);
    assert(k < 64) by {
        vstd::arithmetic::div_mod::lemma_mod_bound(b as int, bits(ty) as int);
    }
    let p = vstd::arithmetic::power2::pow2(k as nat) as int;
    let res = fold_value(ty, a, b, BinOp::Shl);
    assert(res == (pa << k) & mask(ty));
    lemma_shl_truncates(pa, k);
    lemma_mask_is_mod(ty, pa << k);
    assert(big == m * (big / m));
    vstd::arithmetic::div_mod::lemma_mod_mod(pa as int * p, m, big / m);
    assert(res as int == (pa as int * p) % m);
    lemma_value_congruent(ty, a);
    lemma_congruent_mod(x, a as int, m);
    vstd::arithmetic::div_mod::lemma_mod_bound(a as int, m);
    lemma_mod_small_value(pa as int, m);
    vstd::arithmetic::div_mod::lemma_mul_mod_noop_left(x, p, m);
    vstd::arithmetic::div_mod::lemma_mul_mod_noop_left(pa as int, p, m);
    assert(res as int == (x * p) % m);
    vstd::arithmetic::div_mod::lemma_mod_bound(x * p, m);
    lemma_value_congruent(ty, res);
    lemma_mod_small_value(res as int, m);
    vstd::arithmetic::div_mod::lemma_fundamental_div_mod(x * p, m);
    let q = (x * p) / m;
    assert(res as int - x * p == (-q) * m) by (nonlinear_arith)
        requires
            x * p == m * q + res as int,
    ;
    vstd::arithmetic::div_mod::lemma_mod_multiples_basic(-q, m);
    lemma_sum_of_multiples(value_of(ty, res) - res as int, res as int - x * p, m);
}

/// The value held in a word is its bit pattern up to a multiple of the
/// modulus.
proof fn lemma_value_congruent(ty: Type, a: u64)
    requires
        ty.spec_is_integer(),
    ensures
        (value_of(ty, a) - a as int) % modulus(ty) == 0,
        pattern(ty, a) as int == (a as int) % modulus(ty),
        0 <= pattern(ty, a) < modulus(ty),
{
    let m = modulus(ty);
    vstd::arithmetic::div_mod::lemma_mod_bound(a as int, m);
    vstd::arithmetic::div_mod::lemma_fundamental_div_mod(a as int, m);
    let q = (a as int) / m;
    let p = (a as int) % m;
    let v = value_of(ty, a);
    if v == p {
        assert(v - a as int == -q * m) by (nonlinear_arith)
            requires
                a as int == m * q + p,
                v == p,
        ;
    } else {
        assert(v - a as int == (-q - 1) * m) by (nonlinear_arith)
            requires
                a as int == m * q + p,
                v == p - m,
        ;
    }
    vstd::arithmetic::div_mod::lemma_mod_multiples_basic(if v == p { -q } else { -q - 1 }, m);
}

/// A wrapped integer, read back as a value of the type, is the integer up
/// to a multiple of the modulus.
proof fn lemma_wrap_value(ty: Type, v: int)
    requires
        ty.spec_is_integer(),
    ensures
        (value_of(ty, wrap(ty, v) as u64) - v) % modulus(ty) == 0,
        0 <= wrap(ty, v) < modulus(ty),
{
    let m = modulus(ty);
    vstd::arithmetic::div_mod::lemma_mod_bound(v, m);
    let w = wrap(ty, v);
    vstd::arithmetic::div_mod::lemma_mod_bound(w, m);
    lemma_mod_small_value(w, m);
    vstd::arithmetic::div_mod::lemma_fundamental_div_mod(v, m);
    let q = v / m;
    let r = value_of(ty, w as u64);
    if r == w {
        assert(r - v == -q * m) by (nonlinear_arith)
            requires
                v == m * q + w,
                r == w,
        ;
        vstd::arithmetic::div_mod::lemma_mod_multiples_basic(-q, m);
    } else {
        assert(r - v == (-q - 1) * m) by (nonlinear_arith)
            requires
                v == m * q + w,
                r == w - m,
        ;
        vstd::arithmetic::div_mod::lemma_mod_multiples_basic(-q - 1, m);
    }
}

/// A number in `[0, m)` is its own remainder.
proof fn lemma_mod_small_value(w: int, m: int)
    requires
        0 <= w < m,
    ensures
        w % m == w,
{
    vstd::arithmetic::div_mod::lemma_small_mod(w as nat, m as nat);
}

/// Two integers that differ by a multiple of `m` leave the same remainder.
proof fn lemma_congruent_mod(u: int, v: int, m: int)
    requires
        m > 0,
        (u - v) % m == 0,
    ensures
        u % m == v % m,
{
    vstd::arithmetic::div_mod::lemma_fundamental_div_mod(u - v, m);
    let k = (u - v) / m;
    assert(u == v + k * m) by (nonlinear_arith)
        requires
            u - v == m * k + 0,
    ;
    lemma_mod_shift(v, k, m);
}

/// A folded value is a bit pattern of its type: no bit above the type's
/// width is set.
pub proof fn law_folded_fits(ty: Type, a: u64, b: u64, op: BinOp)
    requires
        ty.spec_is_integer(),
        defined(ty, b, op),
    ensures
        fold_value(ty, a, b, op) < modulus(ty),
{
    let m = modulus(ty);
    let x = value_of(ty, a);
    let y = value_of(ty, b);
    let pa = pattern(ty, a);
    let pb = pattern(ty, b);
    let k = shift_amount(ty, b);
    vstd::arithmetic::div_mod::lemma_mod_bound(a as int, m);
    vstd::arithmetic::div_mod::lemma_mod_bound(b as int, m);
    vstd::arithmetic::div_mod::lemma_mod_bound(x + y, m);
    vstd::arithmetic::div_mod::lemma_mod_bound(x - y, m);
    vstd::arithmetic::div_mod::lemma_mod_bound(x * y, m);
    vstd::arithmetic::div_mod::lemma_mod_bound(trunc_div(x, y), m);
    vstd::arithmetic::div_mod::lemma_mod_bound(trunc_rem(x, y), m);
    lemma_pattern_bits(ty, pa, pb, k);
}

/// Bitwise operations and shifts of patterns stay patterns.
proof fn lemma_pattern_bits(ty: Type, pa: u64, pb: u64, k: u64)
    requires
        ty.spec_is_integer(),
        pa < modulus(ty),
        pb < modulus(ty),
    ensures
        (pa & pb) < modulus(ty),
        (pa | pb) < modulus(ty),
        (pa ^ pb) < modulus(ty),
        (pa >> k) < modulus(ty),
        ((pa >> k) | (mask(ty) ^ (mask(ty) >> k))) < modulus(ty),
        ((pa << k) & mask(ty)) < modulus(ty),
{
    let m = mask(ty);
    assert(m == modulus(ty) - 1);
    if ty is U64 || ty is I64 {
        assert(m == 0xffff_ffff_ffff_ffffu64);
    } else {
        assert(pa <= m && pb <= m);
        assert(m == 0xff || m == 0xffff || m == 0xffff_ffff);
        lemma_mask_closed(pa, pb, k, m);
    }
}

/// Operations on values below a low-bit mask stay below it.
proof fn lemma_mask_closed(pa: u64, pb: u64, k: u64, m: u64)
    by (bit_vector)
    requires
        m == 0xff || m == 0xffff || m == 0xffff_ffff,
        pa <= m,
        pb <= m,
    ensures
        (pa & pb) <= m,
        (pa | pb) <= m,
        (pa ^ pb) <= m,
        (pa >> k) <= m,
        ((pa >> k) | (m ^ (m >> k))) <= m,
        ((pa << k) & m) <= m,
{
}

} // verus!
