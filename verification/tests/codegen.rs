use slang::ast::{Layout, TypeKind};
use slang::codegen::{assemble, try_assemble};
use slang::ir::{ArgOf, Data, Ir, StackSlot};

fn word() -> Layout {
    TypeKind::U64.layout()
}

fn text(v: Vec<u8>) -> String {
    String::from_utf8(v).unwrap()
}

const HEADER: &str = ".global _start\n_start:\n\tbl main\n\tb _exit\n";

fn frame(size: usize, slots: usize) -> Ir {
    Ir::Allocate {
        size,
        slots: (0..slots)
            .map(|i| StackSlot { aligned_offset: 8 * i, layout: word() })
            .collect(),
    }
}

#[test]
fn store_and_return_a_literal() {
    let ir = vec![
        Ir::Label { label: b"main".to_vec() },
        frame(8, 1),
        Ir::Store { dst: ArgOf::Var(0), src: ArgOf::Lit(5) },
        Ir::Return { results: vec![(ArgOf::Var(0), word())], deallocate: 8 },
    ];
    let expected = String::from(HEADER)
        + "main:\n"
        + "\tsub sp, sp, 32\n\tstp x29, x30, [sp, 16]\n\tadd x29, sp, 16\n"
        + "\tmov x9, 5\n\tstr x9, [x29, -8]\n"
        + "\tldr x0, [x29, -8]\n"
        + "\tldp x29, x30, [sp, 16]\n\tadd sp, sp, 32\n\tret\n";
    assert_eq!(text(assemble(&ir)), expected);
}

#[test]
fn large_literals_are_loaded_from_the_pool() {
    let ir = vec![frame(8, 1), Ir::Store { dst: ArgOf::Var(0), src: ArgOf::Lit(4096) }];
    let out = text(assemble(&ir));
    assert!(out.ends_with("\tldr x9, =4096\n\tstr x9, [x29, -8]\n"));
    let ir = vec![frame(8, 1), Ir::Store { dst: ArgOf::Var(0), src: ArgOf::Lit(4095) }];
    let out = text(assemble(&ir));
    assert!(out.ends_with("\tmov x9, 4095\n\tstr x9, [x29, -8]\n"));
}

#[test]
fn strings_go_to_the_data_section_once() {
    let s = || ArgOf::Data(Data::Str(b"hi".to_vec()));
    let ir = vec![
        frame(16, 2),
        Ir::Store { dst: ArgOf::Var(0), src: s() },
        Ir::Store { dst: ArgOf::Var(1), src: s() },
    ];
    let expected = String::from(HEADER)
        + "\tsub sp, sp, 32\n\tstp x29, x30, [sp, 16]\n\tadd x29, sp, 16\n"
        + "\tadrp x9, d0@PAGE\n\tadd x9, x9, d0@PAGEOFF\n\tstr x9, [x29, -8]\n"
        + "\tadrp x9, d0@PAGE\n\tadd x9, x9, d0@PAGEOFF\n\tstr x9, [x29, -16]\n"
        + ".data\n\td0: .asciz \"hi\"\n";
    assert_eq!(text(assemble(&ir)), expected);
}

#[test]
fn ninth_argument_goes_on_the_stack() {
    let arguments = (1..=9).map(|n| (ArgOf::Lit(n), word())).collect();
    let ir = vec![
        frame(8, 1),
        Ir::Call {
            symbol: b"f".to_vec(),
            named: 9,
            arguments,
            results: vec![(ArgOf::Var(0), word())],
        },
    ];
    let mut expected = String::from(HEADER)
        + "\tsub sp, sp, 32\n\tstp x29, x30, [sp, 16]\n\tadd x29, sp, 16\n"
        + "\tsub sp, sp, 16\n";
    for n in 1..=8 {
        expected += &format!("\tmov x{}, {}\n", n - 1, n);
    }
    expected += "\tmov x9, 9\n\tstr x9, [sp, 0]\n\tbl f\n\tadd sp, sp, 16\n\tstr x0, [x29, -8]\n";
    assert_eq!(text(assemble(&ir)), expected);
}

#[test]
fn variadic_arguments_spill() {
    let ir = vec![
        frame(0, 0),
        Ir::Call {
            symbol: b"printf".to_vec(),
            named: 1,
            arguments: vec![(ArgOf::Lit(1), word()), (ArgOf::Lit(2), word())],
            results: vec![],
        },
    ];
    let expected = String::from(HEADER)
        + "\tsub sp, sp, 16\n\tstp x29, x30, [sp, 0]\n\tadd x29, sp, 0\n"
        + "\tsub sp, sp, 16\n\tmov x0, 1\n\tmov x9, 2\n\tstr x9, [sp, 0]\n\tbl printf\n\tadd sp, sp, 16\n";
    assert_eq!(text(assemble(&ir)), expected);
}

#[test]
fn stacked_arguments_are_loaded_by_the_callee() {
    let arguments = (0..9).map(|i| (ArgOf::Var(i), word())).collect();
    let ir = vec![frame(72, 9), Ir::LoadArguments { arguments }];
    let out = text(assemble(&ir));
    assert!(out.ends_with("\tstr x7, [x29, -64]\n\tldr x9, [sp, 96]\n\tstr x9, [x29, -72]\n"));
}

#[test]
fn comparisons_and_remainders() {
    let ir = vec![
        frame(8, 1),
        Ir::Bin {
            dst: ArgOf::Var(0),
            lhs: ArgOf::Lit(1),
            rhs: ArgOf::Lit(2),
            bin: slang::ir::IrBinOpKind::Lt,
        },
        Ir::Bin {
            dst: ArgOf::Var(0),
            lhs: ArgOf::Lit(7),
            rhs: ArgOf::Lit(3),
            bin: slang::ir::IrBinOpKind::Mod,
        },
    ];
    let out = text(assemble(&ir));
    assert!(out.ends_with(
        "\tmov x10, 1\n\tmov x11, 2\n\tcmp x10, x11\n\tcset x9, lt\n\tstr x9, [x29, -8]\n\
         \tmov x10, 7\n\tmov x11, 3\n\tudiv x9, x10, x11\n\tmsub x9, x9, x11, x10\n\tstr x9, [x29, -8]\n"
    ));
}

#[test]
fn generation_fails_where_it_would_panic() {
    let outside = vec![Ir::Store { dst: ArgOf::Var(0), src: ArgOf::Lit(1) }];
    assert_eq!(try_assemble(&outside), None);
    let into_literal = vec![frame(8, 1), Ir::Store { dst: ArgOf::Lit(0), src: ArgOf::Lit(1) }];
    assert_eq!(try_assemble(&into_literal), None);
    let missing_slot = vec![frame(8, 1), Ir::Store { dst: ArgOf::Var(3), src: ArgOf::Lit(1) }];
    assert_eq!(try_assemble(&missing_slot), None);
    let two_results = vec![
        frame(16, 2),
        Ir::Return {
            results: vec![(ArgOf::Var(0), word()), (ArgOf::Var(1), word())],
            deallocate: 16,
        },
    ];
    assert_eq!(try_assemble(&two_results), None);
    let labels_only = vec![Ir::Label { label: b"a".to_vec() }, Ir::Jump { label: b"a".to_vec() }];
    assert_eq!(
        try_assemble(&labels_only).map(text),
        Some(String::from(HEADER) + "a:\n\tb a\n")
    );
}

#[test]
fn stack_pointer_moves_by_sixteen() {
    let arguments = (1..=11).map(|n| (ArgOf::Lit(n), word())).collect();
    let ir = vec![
        frame(24, 3),
        Ir::Call {
            symbol: b"f".to_vec(),
            named: 11,
            arguments,
            results: vec![(ArgOf::Var(0), word())],
        },
        Ir::Return { results: vec![], deallocate: 24 },
    ];
    let t = text(assemble(&ir));
    let mut moves = Vec::new();
    for line in t.lines() {
        for prefix in ["\tsub sp, sp, ", "\tadd sp, sp, "] {
            if let Some(n) = line.strip_prefix(prefix) {
                moves.push(n.parse::<u64>().unwrap());
            }
        }
    }
    assert_eq!(moves, vec![48, 32, 32, 48]);
    assert!(moves.iter().all(|n| n % 16 == 0));
}
