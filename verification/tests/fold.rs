use slang::stage::fold::{fold_literal_leaf, IntegerBinOp};
use slang::tree::{BinOp, Type};

fn check<T: IntegerBinOp>(a: T, b: T, op: BinOp, expected: u64) {
    let a = T::into_u64(a);
    let b = T::into_u64(b);
    let value = T::integer_bin_op(a, b, op);
    assert_eq!(expected, value);
}

#[test]
fn integer_bo() {
    check(0xfeu8, 1u8, BinOp::Add, 0xff);
    check(0xfeu8, 2u8, BinOp::Add, 0);
    check(0u8, 0u8, BinOp::Add, 0);
    check(5u8, 3u8, BinOp::Sub, 2);
    check(0u8, 1u8, BinOp::Sub, 0xff);
    check(255u8, 255u8, BinOp::Sub, 0);
    check(2u8, 3u8, BinOp::Mul, 6);
    check(200u8, 2u8, BinOp::Mul, 144);
    check(255u8, 1u8, BinOp::Div, 255);
    check(10u8, 3u8, BinOp::Mod, 1);
    check(255u8, 16u8, BinOp::Mod, 15);
    check(1u8, 2u8, BinOp::Eq, 0);
    check(0b1010u8, 0b1100u8, BinOp::BitAnd, 0b1000);
    check(0b1010u8, 0b1100u8, BinOp::BitOr, 0b1110);
    check(0b1010u8, 0b1100u8, BinOp::Xor, 0b0110);
    check(1u8, 3u8, BinOp::Shl, 8);
    check(0x10u8, 2u8, BinOp::Shr, 4);
}

#[test]
fn signed_division_rounds_toward_zero() {
    check(-7i8, 2i8, BinOp::Div, (-3i8) as u8 as u64);
    check(-7i8, 2i8, BinOp::Mod, (-1i8) as u8 as u64);
    check(7i32, -2i32, BinOp::Div, (-3i32) as u32 as u64);
    check(i8::MIN, -1i8, BinOp::Div, i8::MIN as u8 as u64);
    check(i8::MIN, -1i8, BinOp::Mod, 0);
    check(i64::MIN, -1i64, BinOp::Div, i64::MIN as u64);
}

#[test]
fn signed_comparisons_and_shifts() {
    check(-1i16, 1i16, BinOp::Lt, 1);
    check(-1i16, 1i16, BinOp::Gt, 0);
    check(0xffffu16, 1u16, BinOp::Gt, 1);
    check(-8i8, 1i8, BinOp::Shr, (-4i8) as u8 as u64);
    check(-8i32, 33i32, BinOp::Shr, (-4i32) as u32 as u64);
    check(1u32, 33u32, BinOp::Shl, 2);
    check(0x80u8, 1u8, BinOp::Shl, 0);
    check(3i64, 2i64, BinOp::Ge, 1);
    check(3u64, 3u64, BinOp::Le, 1);
    check(3u64, 3u64, BinOp::Ne, 0);
}

#[test]
fn wrapping_in_wide_types() {
    check(u64::MAX, 1u64, BinOp::Add, 0);
    check(i32::MAX, 1i32, BinOp::Add, i32::MIN as u32 as u64);
    check(0u16, 1u16, BinOp::Sub, 0xffff);
    check(0x1_0000u32, 0x1_0000u32, BinOp::Mul, 0);
}

#[test]
fn words_keep_only_the_pattern() {
    assert_eq!(u8::into_u64(u8::from_u64(0x1234)), 0x34);
    assert_eq!(i8::into_u64(i8::from_u64(0xff)), 0xff);
    assert_eq!(i8::from_u64(0xff), -1);
    assert_eq!(i16::from_u64(0x1_8000), i16::MIN);
}

#[test]
fn folding_by_type() {
    assert_eq!(fold_literal_leaf(Type::U8, 200, 100, BinOp::Add), 44);
    assert_eq!(fold_literal_leaf(Type::U16, 200, 100, BinOp::Add), 300);
    assert_eq!(fold_literal_leaf(Type::I8, 0x7f, 1, BinOp::Add), 0x80);
    assert_eq!(fold_literal_leaf(Type::U32, 7, 0x1_0000_0002, BinOp::Mul), 14);
}
